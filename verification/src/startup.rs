//! How the program starts.

use crate::json::strings_view;
use crate::lines::{law_lines_end_at_newlines, newline_lines};
use crate::text::{
    chars_of, chars_start_with, copy_str, decimal, decimal_text, occurs, occurs_at, same_text,
    starts_with,
};
use vstd::prelude::*;
use vstd::string::*;

verus! {

/// The name under which the desktop knows the program.
pub const APP_ID: &'static str = "termica";

/// A line of the desktop entry that names the program.
pub open spec fn entry_line(key: Seq<char>) -> Seq<char> {
    key + "="@ + APP_ID@ + "\n"@
}

/// What the desktop entry says.
pub open spec fn desktop_entry() -> Seq<char> {
    "[Desktop Entry]\n"@ + "Type=Application\n"@ + "Name=Termica\n"@
        + "Comment=Native terminal workspace\n"@ + entry_line("Exec"@) + entry_line("Icon"@)
        + "Terminal=false\n"@ + entry_line("StartupWMClass"@)
        + "Categories=Development;System;TerminalEmulator;\n"@
}

/// Appends a line that names the program.
fn push_entry_line(out: &mut String, key: &str)
    ensures
        final(out)@ == old(out)@ + entry_line(key@),
{
    out.append(key);
    out.append("=");
    out.append(APP_ID);
    out.append("\n");
    assert(out@ =~= old(out)@ + entry_line(key@));
}

/// The entry by which a desktop finds the program's name and icon. The class of
/// its windows is the name that the window itself is opened under.
pub fn desktop_entry_contents() -> (r: String)
    ensures
        r@ == desktop_entry(),
{
    let mut out = "[Desktop Entry]\n".to_owned();
    out.append("Type=Application\n");
    out.append("Name=Termica\n");
    out.append("Comment=Native terminal workspace\n");
    push_entry_line(&mut out, "Exec");
    push_entry_line(&mut out, "Icon");
    out.append("Terminal=false\n");
    push_entry_line(&mut out, "StartupWMClass");
    out.append("Categories=Development;System;TerminalEmulator;\n");
    out
}

/// What the command line asks for.
#[derive(Debug, Clone, PartialEq, Eq)]
pub struct StartOptions {
    pub pick_chrome: bool,
    pub pick_watermark: bool,
    /// The directory to start in, as it was given.
    pub path: Option<String>,
}

/// The command line names more than one directory.
#[derive(Debug, Clone, Copy, PartialEq, Eq, Structural)]
pub struct TooManyPaths {
    pub given: usize,
}

/// The arguments that are no options: those that do not start with two dashes.
pub open spec fn positionals(args: Seq<Seq<char>>) -> Seq<Seq<char>>
    decreases args.len(),
{
    if args.len() == 0 {
        Seq::empty()
    } else {
        let rest = positionals(args.drop_last());
        if starts_with(args.last(), "--"@) {
            rest
        } else {
            rest.push(args.last())
        }
    }
}

/// Is the option among the arguments?
fn has_option(args: &Vec<String>, option: &str) -> (r: bool)
    ensures
        r == strings_view(args@).contains(option@),
{
    let ghost all = strings_view(args@);
    let mut i: usize = 0;
    while i < args.len()
        invariant
            i <= args@.len(),
            all == strings_view(args@),
            forall|k: int| 0 <= k < i ==> #[trigger] all[k] != option@,
        decreases args@.len() - i,
    {
        assert(all[i as int] == args@[i as int]@);
        if same_text(args[i].as_str(), option) {
            return true;
        }
        i += 1;
    }
    false
}

/// Reads the command line: two options, and at most one directory. An option that
/// is not known is passed over.
pub fn parse_arguments(args: &Vec<String>) -> (r: Result<StartOptions, TooManyPaths>)
    ensures
        match r {
            Ok(options) => {
                &&& positionals(strings_view(args@)).len() <= 1
                &&& options.pick_chrome == strings_view(args@).contains("--pick-chrome"@)
                &&& options.pick_watermark == strings_view(args@).contains("--pick-watermark"@)
                &&& match options.path {
                    Some(path) => positionals(strings_view(args@)) == seq![path@],
                    None => positionals(strings_view(args@)).len() == 0,
                }
            },
            Err(e) => {
                &&& positionals(strings_view(args@)).len() > 1
                &&& e.given == positionals(strings_view(args@)).len()
            },
        },
{
    let ghost all = strings_view(args@);
    let mut path: Option<String> = None;
    let mut given: usize = 0;
    let mut i: usize = 0;
    while i < args.len()
        invariant
            given <= i <= args@.len(),
            all == strings_view(args@),
            given == positionals(all.take(i as int)).len(),
            match path {
                Some(p) => given >= 1 && p@ == positionals(all.take(i as int))[0],
                None => given == 0,
            },
        decreases args@.len() - i,
    {
        assert(all[i as int] == args@[i as int]@);
        assert(all.take(i + 1).drop_last() =~= all.take(i as int));
        let chars = chars_of(args[i].as_str());
        if !chars_start_with(chars.as_slice(), "--") {
            if given == 0 {
                path = Some(copy_str(args[i].as_str()));
            }
            given += 1;
        }
        i += 1;
    }
    assert(all.take(i as int) =~= all);
    if given > 1 {
        return Err(TooManyPaths { given });
    }
    if let Some(p) = &path {
        assert(positionals(all) =~= seq![p@]);
    }
    Ok(
        StartOptions {
            pick_chrome: has_option(args, "--pick-chrome"),
            pick_watermark: has_option(args, "--pick-watermark"),
            path,
        },
    )
}

impl TooManyPaths {
    /// What is said of it.
    pub fn message(&self) -> (r: String)
        ensures
            r@ == "termica: too many positional arguments ("@ + decimal(self.given as nat)
                + " given); expected at most one path"@,
    {
        let mut out = "termica: too many positional arguments (".to_owned();
        out.append(decimal_text(self.given as u64).as_str());
        out.append(" given); expected at most one path");
        out
    }
}

// ---- laws --------------------------------------------------------------

/// The desktop matches the window with the entry: the class in the entry is the
/// program's name, as a line of its own.
pub proof fn law_window_class_is_the_name()
    ensures
        occurs(desktop_entry(), "\n"@ + "StartupWMClass="@ + APP_ID@ + "\n"@),
{
    let before = "[Desktop Entry]\n"@ + "Type=Application\n"@ + "Name=Termica\n"@
        + "Comment=Native terminal workspace\n"@ + entry_line("Exec"@) + entry_line("Icon"@)
        + "Terminal=false\n"@;
    let needle = "\n"@ + "StartupWMClass="@ + APP_ID@ + "\n"@;
    reveal_strlit("Terminal=false\n");
    reveal_strlit("StartupWMClass=");
    reveal_strlit("StartupWMClass");
    reveal_strlit("=");
    reveal_strlit("\n");
    let at = before.len() - 1;
    assert("StartupWMClass="@ =~= "StartupWMClass"@ + "="@);
    assert(needle =~= "\n"@ + entry_line("StartupWMClass"@));
    assert(desktop_entry().subrange(at, at + needle.len()) =~= needle);
    assert(occurs_at(desktop_entry(), needle, at));
}

/// An argument that starts with two dashes is an option, and any other a directory; the
/// directories keep their order.
pub proof fn law_what_is_no_option(a: Seq<Seq<char>>, b: Seq<Seq<char>>, arg: Seq<char>)
    ensures
        positionals(a + b) == positionals(a) + positionals(b),
        arg.len() >= 2 && arg[0] == '-' && arg[1] == '-' ==> positionals(seq![arg]).len() == 0,
        arg.len() < 2 || arg[0] != '-' || arg[1] != '-' ==> positionals(seq![arg]) == seq![arg],
    decreases b.len(),
{
    reveal_strlit("--");
    assert(seq![arg].drop_last() =~= Seq::<Seq<char>>::empty());
    assert(positionals(seq![arg].drop_last()) == Seq::<Seq<char>>::empty());
    assert(seq![arg].last() == arg);
    crate::text::law_occurs_character_by_character(arg, "--"@, 0);
    if arg.len() >= 2 && arg[0] == '-' && arg[1] == '-' {
        assert(arg.subrange(0, 2) =~= "--"@);
    } else if starts_with(arg, "--"@) {
        assert(arg.subrange(0, 2)[0] == "--"@[0]);
        assert(arg.subrange(0, 2)[1] == "--"@[1]);
    } else {
        assert(positionals(seq![arg]) =~= seq![arg]);
    }
    if b.len() == 0 {
        assert(a + b =~= a);
        assert(positionals(a) + positionals(b) =~= positionals(a));
    } else {
        law_what_is_no_option(a, b.drop_last(), arg);
        assert((a + b).drop_last() =~= a + b.drop_last());
        assert((a + b).last() == b.last());
        assert(positionals(a + b) =~= positionals(a) + positionals(b));
    }
}

/// The lines of the desktop entry: it is an application by the name of Termica, with its
/// comment and its categories, not run in a terminal, and started, shown and recognised
/// by the program's own name.
pub proof fn law_lines_of_the_desktop_entry()
    ensures
        newline_lines(desktop_entry()) == seq![
            "[Desktop Entry]"@,
            "Type=Application"@,
            "Name=Termica"@,
            "Comment=Native terminal workspace"@,
            "Exec="@ + "termica"@,
            "Icon="@ + "termica"@,
            "Terminal=false"@,
            "StartupWMClass="@ + "termica"@,
            "Categories=Development;System;TerminalEmulator;"@,
        ],
        APP_ID@ == "termica"@,
{
    reveal_strlit("termica");
    reveal_strlit("=");
    reveal_strlit("\n");
    reveal_strlit("[Desktop Entry]");
    reveal_strlit("[Desktop Entry]\n");
    reveal_strlit("Type=Application");
    reveal_strlit("Type=Application\n");
    reveal_strlit("Name=Termica");
    reveal_strlit("Name=Termica\n");
    reveal_strlit("Comment=Native terminal workspace");
    reveal_strlit("Comment=Native terminal workspace\n");
    reveal_strlit("Exec");
    reveal_strlit("Exec=");
    reveal_strlit("Icon");
    reveal_strlit("Icon=");
    reveal_strlit("Terminal=false");
    reveal_strlit("Terminal=false\n");
    reveal_strlit("StartupWMClass");
    reveal_strlit("StartupWMClass=");
    reveal_strlit("Categories=Development;System;TerminalEmulator;");
    reveal_strlit("Categories=Development;System;TerminalEmulator;\n");
    let end = seq!['\n'];
    assert("\n"@ =~= end);
    let l0 = "[Desktop Entry]"@;
    assert("[Desktop Entry]\n"@ =~= l0 + end);
    let l1 = "Type=Application"@;
    assert("Type=Application\n"@ =~= l1 + end);
    let l2 = "Name=Termica"@;
    assert("Name=Termica\n"@ =~= l2 + end);
    let l3 = "Comment=Native terminal workspace"@;
    assert("Comment=Native terminal workspace\n"@ =~= l3 + end);
    let l4 = "Exec="@ + "termica"@;
    assert("Exec="@ =~= "Exec"@ + "="@);
    assert(entry_line("Exec"@) =~= l4 + end);
    let l5 = "Icon="@ + "termica"@;
    assert("Icon="@ =~= "Icon"@ + "="@);
    assert(entry_line("Icon"@) =~= l5 + end);
    let l6 = "Terminal=false"@;
    assert("Terminal=false\n"@ =~= l6 + end);
    let l7 = "StartupWMClass="@ + "termica"@;
    assert("StartupWMClass="@ =~= "StartupWMClass"@ + "="@);
    assert(entry_line("StartupWMClass"@) =~= l7 + end);
    let l8 = "Categories=Development;System;TerminalEmulator;"@;
    assert("Categories=Development;System;TerminalEmulator;\n"@ =~= l8 + end);
    let r9 = Seq::<char>::empty();
    let r8 = l8 + end + r9;
    law_lines_end_at_newlines(l8, r9);
    let r7 = l7 + end + r8;
    law_lines_end_at_newlines(l7, r8);
    let r6 = l6 + end + r7;
    law_lines_end_at_newlines(l6, r7);
    let r5 = l5 + end + r6;
    law_lines_end_at_newlines(l5, r6);
    let r4 = l4 + end + r5;
    law_lines_end_at_newlines(l4, r5);
    let r3 = l3 + end + r4;
    law_lines_end_at_newlines(l3, r4);
    let r2 = l2 + end + r3;
    law_lines_end_at_newlines(l2, r3);
    let r1 = l1 + end + r2;
    law_lines_end_at_newlines(l1, r2);
    let r0 = l0 + end + r1;
    law_lines_end_at_newlines(l0, r1);
    assert(desktop_entry() =~= r0);
    assert(newline_lines(r0) =~= seq![l0, l1, l2, l3, l4, l5, l6, l7, l8]);
}

} // verus!
