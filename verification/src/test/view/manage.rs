//! The messages between the test view and the extension.
use vstd::prelude::*;
use crate::text::{same_text, trim, trim_spec, is_whitespace_spec, lemma_trim_shape};

verus! {

/// The message that tells the view that a new test run starts.
pub const TAG_NEW_START: &'static str = "new_start";

/// The message that tells the view to scroll to the first failed test.
pub const TAG_SCROLL_TO_WA: &'static str = "scroll_to_wa";

/// The extension of the file that holds an alternative expected output.
pub const ALT_OUT_EXTENSION: &'static str = "alt.out";

/// What the view asks for.
#[derive(Clone, Copy, Debug, PartialEq, Eq)]
pub enum NoteAction {
    /// Record and replay the test under RR.
    TriggerRr,
    /// Run the test under GDB.
    TriggerGdb,
    /// Add a new test.
    NewTest,
    /// Accept the output of a test as an alternative expected output.
    SetAlt,
    /// Remove the alternative expected output of a test.
    DelAlt,
    /// A message this extension does not know.
    Unrecognized,
}

/// The action that a message with tag `tag` asks for.
pub open spec fn note_action_spec(tag: Option<Seq<char>>) -> NoteAction {
    match tag {
        Some(t) => if t == "trigger_rr"@ {
            NoteAction::TriggerRr
        } else if t == "trigger_gdb"@ {
            NoteAction::TriggerGdb
        } else if t == "new_test"@ {
            NoteAction::NewTest
        } else if t == "set_alt"@ {
            NoteAction::SetAlt
        } else if t == "del_alt"@ {
            NoteAction::DelAlt
        } else {
            NoteAction::Unrecognized
        },
        None => NoteAction::Unrecognized,
    }
}

/// The view of an optional string slice.
pub open spec fn opt_view(s: Option<&str>) -> Option<Seq<char>> {
    match s {
        Some(t) => Some(t@),
        None => None,
    }
}

/// The action that a message from the view asks for, by its tag (`None` where
/// the message has no tag that is a string).
pub fn note_action(tag: Option<&str>) -> (action: NoteAction)
    ensures
        action == note_action_spec(opt_view(tag)),
{
    match tag {
        Some(t) => {
            if same_text(t, "trigger_rr") {
                NoteAction::TriggerRr
            } else if same_text(t, "trigger_gdb") {
                NoteAction::TriggerGdb
            } else if same_text(t, "new_test") {
                NoteAction::NewTest
            } else if same_text(t, "set_alt") {
                NoteAction::SetAlt
            } else if same_text(t, "del_alt") {
                NoteAction::DelAlt
            } else {
                NoteAction::Unrecognized
            }
        },
        None => NoteAction::Unrecognized,
    }
}

/// What is written to the alternative output file when the output `out` of
/// a test is accepted: the output without surrounding white space, then a
/// line break.
pub fn alt_out_contents(out: &str) -> (contents: String)
    ensures
        contents@ == trim_spec(out@).push('\n'),
{
    let mut contents = trim(out).to_owned();
    contents.append("\n");
    proof {
        reveal_strlit("\n");
        assert(contents@ =~= trim_spec(out@).push('\n'));
    }
    contents
}

/// Each action is asked for by exactly one tag, and a message with any other
/// tag, or with none, is not recognised.
pub proof fn lemma_note_tags(t: Seq<char>)
    ensures
        note_action_spec(Some(t)) == NoteAction::TriggerRr <==> t == "trigger_rr"@,
        note_action_spec(Some(t)) == NoteAction::TriggerGdb <==> t == "trigger_gdb"@,
        note_action_spec(Some(t)) == NoteAction::NewTest <==> t == "new_test"@,
        note_action_spec(Some(t)) == NoteAction::SetAlt <==> t == "set_alt"@,
        note_action_spec(Some(t)) == NoteAction::DelAlt <==> t == "del_alt"@,
        note_action_spec(None) == NoteAction::Unrecognized,
{
    reveal_strlit("trigger_rr");
    reveal_strlit("trigger_gdb");
    reveal_strlit("new_test");
    reveal_strlit("set_alt");
    reveal_strlit("del_alt");
    assert("trigger_rr"@.len() != "trigger_gdb"@.len());
    assert("trigger_rr"@[0] != "new_test"@[0]);
    assert("trigger_rr"@[0] != "set_alt"@[0]);
    assert("trigger_rr"@[0] != "del_alt"@[0]);
    assert("trigger_gdb"@[0] != "new_test"@[0]);
    assert("trigger_gdb"@[0] != "set_alt"@[0]);
    assert("trigger_gdb"@[0] != "del_alt"@[0]);
    assert("new_test"@[0] != "set_alt"@[0]);
    assert("new_test"@[0] != "del_alt"@[0]);
    assert("set_alt"@[0] != "del_alt"@[0]);
}

/// The alternative output file holds the output without the white space
/// around it, then one line break.
pub proof fn lemma_alt_out_shape(out: Seq<char>)
    ensures
        exists|a: int, b: int|
            0 <= a <= b <= out.len() && #[trigger] out.subrange(a, b).push('\n') == trim_spec(out).push('\n')
                && (forall|k: int| 0 <= k < a ==> is_whitespace_spec(out[k])) && (forall|k: int|
                b <= k < out.len() ==> is_whitespace_spec(out[k])) && (a < b ==> !is_whitespace_spec(out[a])
                && !is_whitespace_spec(out[b - 1])),
{
    lemma_trim_shape(out);
    let (a, b) = choose|a: int, b: int|
        0 <= a <= b <= out.len() && #[trigger] out.subrange(a, b) == trim_spec(out) && (forall|k: int|
            0 <= k < a ==> is_whitespace_spec(out[k])) && (forall|k: int|
            b <= k < out.len() ==> is_whitespace_spec(out[k])) && (a < b ==> !is_whitespace_spec(out[a])
            && !is_whitespace_spec(out[b - 1]));
    assert(out.subrange(a, b).push('\n') == trim_spec(out).push('\n'));
}

} // verus!
