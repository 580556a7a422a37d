//! Every keyboard accelerator in one table, so the shortcuts a reader is
//! shown and the bindings a toolkit installs cannot drift apart.
//!
//! The view modes take Ctrl+1…3 and the headings take Alt+1…3: a reader
//! switches modes far more often than a writer changes a heading level, and
//! Ctrl+number is the pair of hands that reaches for a mode.

use vstd::prelude::*;
use crate::format::{all_commands_spec, command_with_id, id_of, lemma_command_ids_round_trip, starts_with};
use crate::view::{view_mode_id, view_mode_named};

verus! {

broadcast use vstd::string::group_string_axioms;

/// The action every formatting accelerator targets, before the command id.
pub open spec fn format_action_prefix() -> Seq<char> {
    "win.format::"@
}

/// The action every view-mode accelerator targets, before the mode id.
pub open spec fn mode_action_prefix() -> Seq<char> {
    "win.mode::"@
}

/// Each action, with the accelerators bound to it.
pub open spec fn accelerator_table() -> Seq<(Seq<char>, Seq<Seq<char>>)> {
    seq![
        ("app.quit"@, seq!["<Control>q"@]),
        ("win.new"@, seq!["<Control>n"@]),
        ("win.open"@, seq!["<Control>o"@]),
        ("win.save"@, seq!["<Control>s"@]),
        ("win.save-as"@, seq!["<Control><Shift>s"@]),
        ("win.find"@, seq!["<Control>f"@]),
        ("win.toggle-outline"@, seq!["F9"@]),
        ("win.pick-style"@, seq!["<Control><Shift>t"@]),
        ("win.mode::live"@, seq!["<Control>1"@]),
        ("win.mode::source"@, seq!["<Control>2"@]),
        ("win.mode::reading"@, seq!["<Control>3"@]),
        ("win.format::bold"@, seq!["<Control>b"@]),
        ("win.format::italic"@, seq!["<Control>i"@]),
        ("win.format::code"@, seq!["<Control>e"@]),
        ("win.format::link"@, seq!["<Control>k"@]),
        ("win.format::paragraph"@, seq!["<Alt>0"@]),
        ("win.format::heading-1"@, seq!["<Alt>1"@]),
        ("win.format::heading-2"@, seq!["<Alt>2"@]),
        ("win.format::heading-3"@, seq!["<Alt>3"@]),
    ]
}

/// Every action and the accelerators bound to it, in the order the shortcuts
/// are listed.
pub fn accelerators() -> (table: Vec<(&'static str, Vec<&'static str>)>)
    ensures
        table.len() == accelerator_table().len(),
        forall|i: int|
            0 <= i < table.len() ==> {
                &&& (#[trigger] table@[i]).0@ == accelerator_table()[i].0
                &&& table@[i].1.len() == accelerator_table()[i].1.len()
                &&& forall|j: int|
                    0 <= j < table@[i].1.len() ==> (#[trigger] table@[i].1@[j])@
                        == accelerator_table()[i].1[j]
            },
{
    let table = vec![
        ("app.quit", vec!["<Control>q"]),
        ("win.new", vec!["<Control>n"]),
        ("win.open", vec!["<Control>o"]),
        ("win.save", vec!["<Control>s"]),
        ("win.save-as", vec!["<Control><Shift>s"]),
        ("win.find", vec!["<Control>f"]),
        ("win.toggle-outline", vec!["F9"]),
        ("win.pick-style", vec!["<Control><Shift>t"]),
        ("win.mode::live", vec!["<Control>1"]),
        ("win.mode::source", vec!["<Control>2"]),
        ("win.mode::reading", vec!["<Control>3"]),
        ("win.format::bold", vec!["<Control>b"]),
        ("win.format::italic", vec!["<Control>i"]),
        ("win.format::code", vec!["<Control>e"]),
        ("win.format::link", vec!["<Control>k"]),
        ("win.format::paragraph", vec!["<Alt>0"]),
        ("win.format::heading-1", vec!["<Alt>1"]),
        ("win.format::heading-2", vec!["<Alt>2"]),
        ("win.format::heading-3", vec!["<Alt>3"]),
    ];
    assert(table.len() == 19);
    assert forall|i: int| 0 <= i < table.len() implies {
        &&& (#[trigger] table@[i]).0@ == accelerator_table()[i].0
        &&& table@[i].1.len() == accelerator_table()[i].1.len()
        &&& forall|j: int|
            0 <= j < table@[i].1.len() ==> (#[trigger] table@[i].1@[j])@
                == accelerator_table()[i].1[j]
    } by {
        assert(table@[i].1.len() == 1);
        assert forall|j: int| 0 <= j < table@[i].1.len() implies (#[trigger] table@[i].1@[j])@
            == accelerator_table()[i].1[j] by {
            assert(j == 0);
        }
    }
    table
}

/// What tells two accelerators apart at a glance: their length and their
/// last character.
spec fn accelerator_key(a: Seq<char>) -> (int, char) {
    (a.len() as int, a.last())
}

spec fn accelerator_keys() -> Seq<(int, char)> {
    seq![
        (10, 'q'),
        (10, 'n'),
        (10, 'o'),
        (10, 's'),
        (17, 's'),
        (10, 'f'),
        (2, '9'),
        (17, 't'),
        (10, '1'),
        (10, '2'),
        (10, '3'),
        (10, 'b'),
        (10, 'i'),
        (10, 'e'),
        (10, 'k'),
        (6, '0'),
        (6, '1'),
        (6, '2'),
        (6, '3'),
    ]
}

proof fn lemma_accelerator_keys()
    ensures
        forall|i: int|
            0 <= i < accelerator_table().len() ==> accelerator_table()[i].1.len() == 1
                && accelerator_key(#[trigger] accelerator_table()[i].1[0])
                == accelerator_keys()[i],
{
    reveal_strlit("<Control>q");
    reveal_strlit("<Control>n");
    reveal_strlit("<Control>o");
    reveal_strlit("<Control>s");
    reveal_strlit("<Control><Shift>s");
    reveal_strlit("<Control>f");
    reveal_strlit("F9");
    reveal_strlit("<Control><Shift>t");
    reveal_strlit("<Control>1");
    reveal_strlit("<Control>2");
    reveal_strlit("<Control>3");
    reveal_strlit("<Control>b");
    reveal_strlit("<Control>i");
    reveal_strlit("<Control>e");
    reveal_strlit("<Control>k");
    reveal_strlit("<Alt>0");
    reveal_strlit("<Alt>1");
    reveal_strlit("<Alt>2");
    reveal_strlit("<Alt>3");
    let t = accelerator_table();
    assert forall|i: int| 0 <= i < t.len() implies t[i].1.len() == 1 && accelerator_key(
        #[trigger] t[i].1[0],
    ) == accelerator_keys()[i] by {
        if i == 0 {
            assert("<Control>q"@.len() == 10 && "<Control>q"@[9] == 'q');
            assert(t[i].1[0] == "<Control>q"@);
            assert(accelerator_keys()[i] == (10int, 'q'));
        } else if i == 1 {
            assert("<Control>n"@.len() == 10 && "<Control>n"@[9] == 'n');
            assert(t[i].1[0] == "<Control>n"@);
            assert(accelerator_keys()[i] == (10int, 'n'));
        } else if i == 2 {
            assert("<Control>o"@.len() == 10 && "<Control>o"@[9] == 'o');
            assert(t[i].1[0] == "<Control>o"@);
            assert(accelerator_keys()[i] == (10int, 'o'));
        } else if i == 3 {
            assert("<Control>s"@.len() == 10 && "<Control>s"@[9] == 's');
            assert(t[i].1[0] == "<Control>s"@);
            assert(accelerator_keys()[i] == (10int, 's'));
        } else if i == 4 {
            assert("<Control><Shift>s"@.len() == 17 && "<Control><Shift>s"@[16] == 's');
            assert(t[i].1[0] == "<Control><Shift>s"@);
            assert(accelerator_keys()[i] == (17int, 's'));
        } else if i == 5 {
            assert("<Control>f"@.len() == 10 && "<Control>f"@[9] == 'f');
            assert(t[i].1[0] == "<Control>f"@);
            assert(accelerator_keys()[i] == (10int, 'f'));
        } else if i == 6 {
            assert("F9"@.len() == 2 && "F9"@[1] == '9');
            assert(t[i].1[0] == "F9"@);
            assert(accelerator_keys()[i] == (2int, '9'));
        } else if i == 7 {
            assert("<Control><Shift>t"@.len() == 17 && "<Control><Shift>t"@[16] == 't');
            assert(t[i].1[0] == "<Control><Shift>t"@);
            assert(accelerator_keys()[i] == (17int, 't'));
        } else if i == 8 {
            assert("<Control>1"@.len() == 10 && "<Control>1"@[9] == '1');
            assert(t[i].1[0] == "<Control>1"@);
            assert(accelerator_keys()[i] == (10int, '1'));
        } else if i == 9 {
            assert("<Control>2"@.len() == 10 && "<Control>2"@[9] == '2');
            assert(t[i].1[0] == "<Control>2"@);
            assert(accelerator_keys()[i] == (10int, '2'));
        } else if i == 10 {
            assert("<Control>3"@.len() == 10 && "<Control>3"@[9] == '3');
            assert(t[i].1[0] == "<Control>3"@);
            assert(accelerator_keys()[i] == (10int, '3'));
        } else if i == 11 {
            assert("<Control>b"@.len() == 10 && "<Control>b"@[9] == 'b');
            assert(t[i].1[0] == "<Control>b"@);
            assert(accelerator_keys()[i] == (10int, 'b'));
        } else if i == 12 {
            assert("<Control>i"@.len() == 10 && "<Control>i"@[9] == 'i');
            assert(t[i].1[0] == "<Control>i"@);
            assert(accelerator_keys()[i] == (10int, 'i'));
        } else if i == 13 {
            assert("<Control>e"@.len() == 10 && "<Control>e"@[9] == 'e');
            assert(t[i].1[0] == "<Control>e"@);
            assert(accelerator_keys()[i] == (10int, 'e'));
        } else if i == 14 {
            assert("<Control>k"@.len() == 10 && "<Control>k"@[9] == 'k');
            assert(t[i].1[0] == "<Control>k"@);
            assert(accelerator_keys()[i] == (10int, 'k'));
        } else if i == 15 {
            assert("<Alt>0"@.len() == 6 && "<Alt>0"@[5] == '0');
            assert(t[i].1[0] == "<Alt>0"@);
            assert(accelerator_keys()[i] == (6int, '0'));
        } else if i == 16 {
            assert("<Alt>1"@.len() == 6 && "<Alt>1"@[5] == '1');
            assert(t[i].1[0] == "<Alt>1"@);
            assert(accelerator_keys()[i] == (6int, '1'));
        } else if i == 17 {
            assert("<Alt>2"@.len() == 6 && "<Alt>2"@[5] == '2');
            assert(t[i].1[0] == "<Alt>2"@);
            assert(accelerator_keys()[i] == (6int, '2'));
        } else {
            assert("<Alt>3"@.len() == 6 && "<Alt>3"@[5] == '3');
            assert(t[i].1[0] == "<Alt>3"@);
            assert(accelerator_keys()[i] == (6int, '3'));
        }
    }
}

/// Two actions on one accelerator is a binding that silently does the wrong
/// one: no accelerator in the table is bound twice.
pub proof fn lemma_no_accelerator_bound_twice()
    ensures
        forall|i: int, x: int, j: int, y: int|
            0 <= i < accelerator_table().len() && 0 <= j < accelerator_table().len() && 0 <= x
                < accelerator_table()[i].1.len() && 0 <= y < accelerator_table()[j].1.len() && (i
                != j || x != y) ==> #[trigger] accelerator_table()[i].1[x]
                != #[trigger] accelerator_table()[j].1[y],
{
    lemma_accelerator_keys();
    assert forall|i: int, x: int, j: int, y: int|
        0 <= i < accelerator_table().len() && 0 <= j < accelerator_table().len() && 0 <= x
            < accelerator_table()[i].1.len() && 0 <= y < accelerator_table()[j].1.len() && (i != j
            || x != y) implies #[trigger] accelerator_table()[i].1[x]
        != #[trigger] accelerator_table()[j].1[y] by {
        assert(x == 0 && y == 0);
        assert(accelerator_key(accelerator_table()[i].1[0]) == accelerator_keys()[i]);
        assert(accelerator_key(accelerator_table()[j].1[0]) == accelerator_keys()[j]);
        assert(accelerator_keys()[i] != accelerator_keys()[j]);
    }
}

proof fn lemma_prefix_differs(s: Seq<char>, p: Seq<char>, k: int)
    requires
        0 <= k < p.len(),
        k < s.len() ==> s[k] != p[k],
    ensures
        !starts_with(s, p),
{
    if starts_with(s, p) {
        assert(s.subrange(0, p.len() as int)[k] == s[k]);
    }
}

proof fn lemma_actions_revealed()
    ensures
        format_action_prefix().len() == 12,
        format_action_prefix()[4] == 'f',
        mode_action_prefix().len() == 10,
        mode_action_prefix()[4] == 'm',
        accelerator_table()[0].0.len() == 8,
        accelerator_table()[0].0[0] == 'a',
        accelerator_table()[1].0.len() == 7,
        accelerator_table()[2].0.len() == 8,
        accelerator_table()[3].0.len() == 8,
        accelerator_table()[4].0.len() == 11,
        accelerator_table()[4].0[4] == 's',
        accelerator_table()[5].0.len() == 8,
        accelerator_table()[6].0[4] == 't',
        accelerator_table()[7].0[4] == 'p',
        accelerator_table()[8].0.len() == 14,
        accelerator_table()[8].0[4] == 'm',
        accelerator_table()[9].0[4] == 'm',
        accelerator_table()[10].0[4] == 'm',
        forall|i: int| 11 <= i < 19 ==> (#[trigger] accelerator_table()[i].0)[4] == 'f',
{
    reveal_strlit("win.format::");
    reveal_strlit("win.mode::");
    reveal_strlit("app.quit");
    reveal_strlit("win.new");
    reveal_strlit("win.open");
    reveal_strlit("win.save");
    reveal_strlit("win.save-as");
    reveal_strlit("win.find");
    reveal_strlit("win.toggle-outline");
    reveal_strlit("win.pick-style");
    reveal_strlit("win.mode::live");
    reveal_strlit("win.mode::source");
    reveal_strlit("win.mode::reading");
    reveal_strlit("win.format::bold");
    reveal_strlit("win.format::italic");
    reveal_strlit("win.format::code");
    reveal_strlit("win.format::link");
    reveal_strlit("win.format::paragraph");
    reveal_strlit("win.format::heading-1");
    reveal_strlit("win.format::heading-2");
    reveal_strlit("win.format::heading-3");
}

/// Every formatting accelerator targets a command that exists: what follows
/// the formatting action's prefix is an id that names a command.
pub proof fn lemma_format_accelerators_name_commands()
    ensures
        forall|i: int|
            0 <= i < accelerator_table().len() && starts_with(
                #[trigger] accelerator_table()[i].0,
                format_action_prefix(),
            ) ==> command_with_id(
                accelerator_table()[i].0.skip(format_action_prefix().len() as int),
            ) is Some,
{
    lemma_actions_revealed();
    lemma_command_ids_round_trip();
    let cs = all_commands_spec();
    assert forall|i: int|
        0 <= i < accelerator_table().len() && starts_with(
            #[trigger] accelerator_table()[i].0,
            format_action_prefix(),
        ) implies command_with_id(
        accelerator_table()[i].0.skip(format_action_prefix().len() as int),
    ) is Some by {
        let action = accelerator_table()[i].0;
        if i < 11 {
            lemma_prefix_differs(action, format_action_prefix(), 4);
        } else {
            reveal_strlit("win.format::bold");
            reveal_strlit("win.format::italic");
            reveal_strlit("win.format::code");
            reveal_strlit("win.format::link");
            reveal_strlit("win.format::paragraph");
            reveal_strlit("win.format::heading-1");
            reveal_strlit("win.format::heading-2");
            reveal_strlit("win.format::heading-3");
            reveal_strlit("bold");
            reveal_strlit("italic");
            reveal_strlit("code");
            reveal_strlit("link");
            reveal_strlit("paragraph");
            reveal_strlit("heading-1");
            reveal_strlit("heading-2");
            reveal_strlit("heading-3");
            let id = action.skip(12);
            if i == 11 {
                assert(id =~= id_of(cs[0]));
            } else if i == 12 {
                assert(id =~= id_of(cs[1]));
            } else if i == 13 {
                assert(id =~= id_of(cs[3]));
            } else if i == 14 {
                assert(id =~= id_of(cs[4]));
            } else if i == 15 {
                assert(id =~= id_of(cs[5]));
            } else if i == 16 {
                assert(id =~= id_of(cs[6]));
            } else if i == 17 {
                assert(id =~= id_of(cs[7]));
            } else {
                assert(id =~= id_of(cs[8]));
            }
        }
    }
}

/// Every view-mode accelerator targets a mode that exists: what follows the
/// mode action's prefix is the id of the mode it names.
pub proof fn lemma_mode_accelerators_name_modes()
    ensures
        forall|i: int|
            0 <= i < accelerator_table().len() && starts_with(
                #[trigger] accelerator_table()[i].0,
                mode_action_prefix(),
            ) ==> {
                let id = accelerator_table()[i].0.skip(mode_action_prefix().len() as int);
                view_mode_id(view_mode_named(id)) == id
            },
{
    lemma_actions_revealed();
    assert forall|i: int|
        0 <= i < accelerator_table().len() && starts_with(
            #[trigger] accelerator_table()[i].0,
            mode_action_prefix(),
        ) implies {
        let id = accelerator_table()[i].0.skip(mode_action_prefix().len() as int);
        view_mode_id(view_mode_named(id)) == id
    } by {
        let action = accelerator_table()[i].0;
        if i == 0 {
            lemma_prefix_differs(action, mode_action_prefix(), 0);
            reveal_strlit("win.mode::");
        } else if i < 8 || i >= 11 {
            lemma_prefix_differs(action, mode_action_prefix(), 4);
        } else {
            reveal_strlit("win.mode::live");
            reveal_strlit("win.mode::source");
            reveal_strlit("win.mode::reading");
            reveal_strlit("live");
            reveal_strlit("source");
            reveal_strlit("reading");
            let id = action.skip(10);
            if i == 8 {
                assert(id =~= "live"@);
            } else if i == 9 {
                assert(id =~= "source"@);
                assert("source"@ != "live"@);
            } else {
                assert(id =~= "reading"@);
                assert("reading"@ != "live"@);
                assert("reading"@ != "source"@);
            }
        }
    }
}

} // verus!
