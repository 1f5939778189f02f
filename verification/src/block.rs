//! The blocks of a pane: their numbers, and what is known of the command that
//! each of them shows.

use crate::osc::text_view;
use crate::text::{
    decimal_int, lemma_decimal_int_value, numeral_value, parse_i32, same_text, signed_text,
};
use vstd::prelude::*;

verus! {

/// A block of a pane. Numbers are given out in order of creation, so a block
/// with a lower number stands above one with a higher number.
#[derive(Debug, Clone, Copy, PartialEq, Eq, PartialOrd, Ord, Hash, Structural)]
pub struct BlockId(pub u64);

/// What is known of a finished block besides its output.
#[derive(Debug, Clone, PartialEq, Eq)]
pub struct BlockMeta {
    /// The command line; empty for output before the first command.
    pub command: String,
    /// The exit code, where the shell told one.
    pub exit: Option<i32>,
    /// The directory in which the command ran.
    pub cwd: Option<String>,
    /// The state of the git repository in which it ran, as JSON.
    pub git: Option<String>,
}

/// What is known of a block, as mathematics.
pub struct MetaView {
    pub command: Seq<char>,
    pub exit: Option<i32>,
    pub cwd: Option<Seq<char>>,
    pub git: Option<Seq<char>>,
}

impl View for BlockMeta {
    type V = MetaView;

    open spec fn view(&self) -> MetaView {
        MetaView {
            command: self.command@,
            exit: self.exit,
            cwd: text_view(self.cwd),
            git: text_view(self.git),
        }
    }
}

impl Default for BlockMeta {
    /// Nothing is known.
    fn default() -> (r: BlockMeta)
        ensures
            r@ == nothing_known(),
    {
        let r = BlockMeta { command: String::new(), exit: None, cwd: None, git: None };
        assert(r.command@ =~= Seq::empty());
        r
    }
}

/// Nothing is known of a block.
pub open spec fn nothing_known() -> MetaView {
    MetaView { command: Seq::empty(), exit: None, cwd: None, git: None }
}

// ---- chips -------------------------------------------------------------

/// A chip: what is known of a block under one name, as text.
pub type ChipView = (Seq<char>, Seq<char>);

/// The views of chips.
pub open spec fn chips_view(chips: Seq<(String, String)>) -> Seq<ChipView> {
    chips.map_values(|c: (String, String)| (c.0@, c.1@))
}

/// The chip of a value, if there is one.
pub open spec fn chip(name: Seq<char>, value: Option<Seq<char>>) -> Seq<ChipView> {
    match value {
        Some(v) => seq![(name, v)],
        None => Seq::empty(),
    }
}

/// The command of a block, if it has one.
pub open spec fn labelled(m: MetaView) -> Option<Seq<char>> {
    if m.command.len() == 0 {
        None
    } else {
        Some(m.command)
    }
}

/// The exit code of a block as text, if it is known.
pub open spec fn exit_text(m: MetaView) -> Option<Seq<char>> {
    match m.exit {
        Some(code) => Some(decimal_int(code as int)),
        None => None,
    }
}

/// The chips of a block: one for each thing that is known of it.
pub open spec fn meta_chips(m: MetaView) -> Seq<ChipView> {
    chip("command"@, labelled(m)) + chip("exit"@, exit_text(m)) + chip("cwd"@, m.cwd) + chip(
        "git"@,
        m.git,
    )
}

/// What the last chip under a name says, if there is one.
pub open spec fn chip_value(chips: Seq<ChipView>, name: Seq<char>) -> Option<Seq<char>>
    decreases chips.len(),
{
    if chips.len() == 0 {
        None
    } else if chips.last().0 == name {
        Some(chips.last().1)
    } else {
        chip_value(chips.drop_last(), name)
    }
}

/// The exit code that a text writes, if it writes one.
pub open spec fn exit_code(text: Option<Seq<char>>) -> Option<i32> {
    match text {
        Some(s) => match numeral_value(s) {
            Some(v) if i32::MIN <= v <= i32::MAX => Some(v as i32),
            _ => None,
        },
        None => None,
    }
}

/// What chips say of a block. Chips under other names say nothing.
pub open spec fn meta_of(chips: Seq<ChipView>) -> MetaView {
    MetaView {
        command: match chip_value(chips, "command"@) {
            Some(s) => s,
            None => Seq::empty(),
        },
        exit: exit_code(chip_value(chips, "exit"@)),
        cwd: chip_value(chips, "cwd"@),
        git: chip_value(chips, "git"@),
    }
}

/// Appends the chip of a value.
fn push_chip(chips: &mut Vec<(String, String)>, name: &str, value: &str)
    ensures
        chips_view(final(chips)@) == chips_view(old(chips)@) + chip(name@, Some(value@)),
{
    chips.push((name.to_owned(), value.to_owned()));
    assert(chips_view(chips@) =~= chips_view(old(chips)@) + chip(name@, Some(value@)));
}

/// What the last chip under a name says, if there is one.
fn find_chip(chips: &Vec<(String, String)>, name: &str) -> (r: Option<String>)
    ensures
        text_view(r) == chip_value(chips_view(chips@), name@),
{
    let ghost all = chips_view(chips@);
    let mut n: usize = chips.len();
    assert(all.take(n as int) =~= all);
    while n > 0
        invariant
            n <= chips@.len(),
            all == chips_view(chips@),
            chip_value(all, name@) == chip_value(all.take(n as int), name@),
        decreases n,
    {
        assert(all.take(n as int).last() == (chips@[n - 1].0@, chips@[n - 1].1@));
        assert(all.take(n as int).drop_last() =~= all.take(n - 1));
        if same_text(chips[n - 1].0.as_str(), name) {
            return Some(chips[n - 1].1.clone());
        }
        n -= 1;
    }
    None
}

impl BlockMeta {
    /// The chips of the block: one for each thing that is known of it.
    pub fn to_chips(&self) -> (r: Vec<(String, String)>)
        ensures
            chips_view(r@) == meta_chips(self@),
    {
        let mut chips: Vec<(String, String)> = Vec::new();
        assert(chips_view(chips@) =~= Seq::empty());
        if !self.command.as_str().is_empty() {
            push_chip(&mut chips, "command", self.command.as_str());
        }
        assert(chips_view(chips@) =~= chip("command"@, labelled(self@)));
        if let Some(code) = self.exit {
            push_chip(&mut chips, "exit", signed_text(code as i64).as_str());
        }
        assert(chips_view(chips@) =~= chip("command"@, labelled(self@)) + chip(
            "exit"@,
            exit_text(self@),
        ));
        if let Some(cwd) = &self.cwd {
            push_chip(&mut chips, "cwd", cwd.as_str());
        }
        assert(chips_view(chips@) =~= chip("command"@, labelled(self@)) + chip(
            "exit"@,
            exit_text(self@),
        ) + chip("cwd"@, self@.cwd));
        if let Some(git) = &self.git {
            push_chip(&mut chips, "git", git.as_str());
        }
        assert(chips_view(chips@) =~= meta_chips(self@));
        chips
    }

    /// What chips say of a block. Chips under other names say nothing.
    pub fn from_chips(chips: &Vec<(String, String)>) -> (r: BlockMeta)
        ensures
            r@ == meta_of(chips_view(chips@)),
    {
        let command = match find_chip(chips, "command") {
            Some(s) => s,
            None => {
                let none = String::new();
                assert(none@ =~= Seq::empty());
                none
            },
        };
        let exit = match find_chip(chips, "exit") {
            Some(s) => parse_i32(s.as_str()),
            None => None,
        };
        let cwd = find_chip(chips, "cwd");
        let git = find_chip(chips, "git");
        BlockMeta { command, exit, cwd, git }
    }
}

// ---- laws --------------------------------------------------------------

/// The names of the chips are distinct.
proof fn lemma_chip_names()
    ensures
        "command"@ != "exit"@,
        "command"@ != "cwd"@,
        "command"@ != "git"@,
        "exit"@ != "cwd"@,
        "exit"@ != "git"@,
        "cwd"@ != "git"@,
{
    reveal_strlit("command");
    reveal_strlit("exit");
    reveal_strlit("cwd");
    reveal_strlit("git");
    assert("command"@.len() == 7 && "exit"@.len() == 4 && "cwd"@.len() == 3 && "git"@.len() == 3);
    assert("cwd"@[0] != "git"@[0]);
}

/// A chip that is found is there; where none is found, none has the name.
proof fn lemma_chip_value(chips: Seq<ChipView>, name: Seq<char>)
    ensures
        match chip_value(chips, name) {
            Some(v) => chips.contains((name, v)),
            None => forall|i: int| 0 <= i < chips.len() ==> (#[trigger] chips[i]).0 != name,
        },
    decreases chips.len(),
{
    if chips.len() > 0 {
        let rest = chips.drop_last();
        if chips.last().0 == name {
            assert(chips[chips.len() - 1] == (name, chips.last().1));
        } else {
            lemma_chip_value(rest, name);
            match chip_value(rest, name) {
                Some(v) => {
                    let i = choose|i: int| 0 <= i < rest.len() && rest[i] == (name, v);
                    assert(chips[i] == (name, v));
                },
                None => {
                    assert forall|i: int| 0 <= i < chips.len() implies (#[trigger] chips[i]).0
                        != name by {
                        if i < rest.len() {
                            assert(rest[i].0 != name);
                        }
                    }
                },
            }
        }
    }
}

/// Which chips a block has.
proof fn lemma_meta_chips(m: MetaView, c: ChipView)
    ensures
        meta_chips(m).contains(c) <==> {
            ||| c.0 == "command"@ && labelled(m) == Some(c.1)
            ||| c.0 == "exit"@ && exit_text(m) == Some(c.1)
            ||| c.0 == "cwd"@ && m.cwd == Some(c.1)
            ||| c.0 == "git"@ && m.git == Some(c.1)
        },
{
    let one = chip("command"@, labelled(m));
    let two = one + chip("exit"@, exit_text(m));
    let three = two + chip("cwd"@, m.cwd);
    let all = meta_chips(m);
    if c.0 == "command"@ && labelled(m) == Some(c.1) {
        assert(all[0] == c);
    }
    if c.0 == "exit"@ && exit_text(m) == Some(c.1) {
        assert(all[one.len() as int] == c);
    }
    if c.0 == "cwd"@ && m.cwd == Some(c.1) {
        assert(all[two.len() as int] == c);
    }
    if c.0 == "git"@ && m.git == Some(c.1) {
        assert(all[three.len() as int] == c);
    }
}

/// Chips in another order say the same under each name.
proof fn lemma_same_chip(m: MetaView, chips: Seq<ChipView>, name: Seq<char>, value: Option<
    Seq<char>,
>)
    requires
        forall|c: ChipView| #[trigger] chips.contains(c) <==> meta_chips(m).contains(c),
        forall|c: ChipView|
            c.0 == name ==> (#[trigger] meta_chips(m).contains(c) <==> value == Some(c.1)),
    ensures
        chip_value(chips, name) == value,
{
    lemma_chip_value(chips, name);
    match chip_value(chips, name) {
        Some(v) => {
            assert(chips.contains((name, v)));
            assert(meta_chips(m).contains((name, v)));
        },
        None => {
            if let Some(v) = value {
                assert(meta_chips(m).contains((name, v)));
                assert(chips.contains((name, v)));
                let i = choose|i: int| 0 <= i < chips.len() && chips[i] == (name, v);
                assert(chips[i].0 == name);
            }
        },
    }
}

/// The chips of a block say all that is known of it, in whatever order they
/// come back: its command, its exit code, its directory and its git state.
pub proof fn law_chips_keep_what_is_known(m: MetaView, chips: Seq<ChipView>)
    requires
        forall|c: ChipView| #[trigger] chips.contains(c) <==> meta_chips(m).contains(c),
    ensures
        meta_of(chips) == m,
{
    lemma_chip_names();
    assert forall|c: ChipView| #[trigger] meta_chips(m).contains(c) <==> {
        ||| c.0 == "command"@ && labelled(m) == Some(c.1)
        ||| c.0 == "exit"@ && exit_text(m) == Some(c.1)
        ||| c.0 == "cwd"@ && m.cwd == Some(c.1)
        ||| c.0 == "git"@ && m.git == Some(c.1)
    } by {
        lemma_meta_chips(m, c);
    }
    lemma_same_chip(m, chips, "command"@, labelled(m));
    lemma_same_chip(m, chips, "exit"@, exit_text(m));
    lemma_same_chip(m, chips, "cwd"@, m.cwd);
    lemma_same_chip(m, chips, "git"@, m.git);
    if let Some(code) = m.exit {
        lemma_decimal_int_value(code as int);
    }
    assert(meta_of(chips).command =~= m.command);
}

/// A block of which nothing is known has no chips.
pub proof fn law_nothing_known_gives_no_chips()
    ensures
        meta_chips(nothing_known()).len() == 0,
{
}

/// Each thing that is known of a block has its chip under its name: the command as it
/// is, the exit code as a numeral, the directory and the git state as they are. What is
/// not known, and an empty command, have none.
pub proof fn law_each_chip_under_its_name(m: MetaView)
    ensures
        ({
            let chips = meta_chips(m);
            let a = if m.command.len() > 0 {
                1int
            } else {
                0
            };
            let b = if m.exit is Some {
                a + 1
            } else {
                a
            };
            let c = if m.cwd is Some {
                b + 1
            } else {
                b
            };
            &&& chips.len() == (if m.git is Some {
                c + 1
            } else {
                c
            })
            &&& m.command.len() > 0 ==> chips[0].0 == "command"@ && chips[0].1 == m.command
            &&& m.exit is Some ==> chips[a].0 == "exit"@ && chips[a].1 == decimal_int(
                m.exit.unwrap() as int,
            )
            &&& m.cwd is Some ==> chips[b].0 == "cwd"@ && chips[b].1 == m.cwd.unwrap()
            &&& m.git is Some ==> chips[c].0 == "git"@ && chips[c].1 == m.git.unwrap()
        }),
{
}

/// Of several chips under one name the last counts; chips under other names do not
/// matter, and where there is none under a name nothing is said.
pub proof fn law_last_chip_counts(
    chips: Seq<ChipView>,
    name: Seq<char>,
    other: Seq<char>,
    value: Seq<char>,
)
    requires
        name != other,
    ensures
        chip_value(chips.push((name, value)), name) == Some(value),
        chip_value(chips.push((other, value)), name) == chip_value(chips, name),
        chip_value(Seq::<ChipView>::empty(), name) is None,
{
    assert(chips.push((name, value)).drop_last() =~= chips);
    assert(chips.push((other, value)).drop_last() =~= chips);
}

/// What chips say: the command, or an empty one; the exit code, where its chip is a
/// numeral of 32 bits; the directory; and the git state.
pub proof fn law_what_chips_say(chips: Seq<ChipView>, code: i32)
    ensures
        ({
            let m = meta_of(chips);
            &&& m.command == (if chip_value(chips, "command"@) is Some {
                chip_value(chips, "command"@).unwrap()
            } else {
                Seq::<char>::empty()
            })
            &&& m.cwd == chip_value(chips, "cwd"@)
            &&& m.git == chip_value(chips, "git"@)
            &&& chip_value(chips, "exit"@) == Some(decimal_int(code as int)) ==> m.exit == Some(code)
            &&& chip_value(chips, "exit"@) is None ==> m.exit is None
            &&& m.exit is Some ==> numeral_value(chip_value(chips, "exit"@).unwrap()) == Some(
                m.exit.unwrap() as int,
            )
        }),
{
    lemma_decimal_int_value(code as int);
}

/// What [`BlockMeta::to_chips`] writes, [`BlockMeta::from_chips`] reads: command, exit
/// code, directory and git state come back.
pub proof fn law_metadata_as_written(m: BlockMeta, chips: Vec<(String, String)>, back: BlockMeta)
    requires
        call_ensures(BlockMeta::to_chips, (&m,), chips),
        call_ensures(BlockMeta::from_chips, (&chips,), back),
    ensures
        back.command@ == m.command@,
        back.exit == m.exit,
        back.cwd is Some <==> m.cwd is Some,
        m.cwd is Some ==> back.cwd.unwrap()@ == m.cwd.unwrap()@,
        back.git is Some <==> m.git is Some,
        m.git is Some ==> back.git.unwrap()@ == m.git.unwrap()@,
{
    law_chips_keep_what_is_known(m@, chips_view(chips@));
    assert(back@ == m@);
    assert(back@.command == m@.command && back@.exit == m@.exit && back@.cwd == m@.cwd && back@.git
        == m@.git);
}

} // verus!
