//! Routing the user's keystrokes: everything goes to the shell except the
//! debug key, which asks for a dump of the screen model instead.

use vstd::prelude::*;

verus! {

/// The byte (Ctrl+\) that asks for a dump of the screen model.
pub const DEBUG_DUMP_KEY: u8 = 0x1c;

/// What to do with a piece of the user's input.
#[derive(Debug, PartialEq, Eq, Structural, Clone, Copy)]
pub enum InputAction {
    /// Send `input[start..end]` to the shell.
    Forward(usize, usize),
    /// Dump the screen model.
    Dump,
}

/// The actions for `s` from position `i` on, where `s[start..i]` holds the
/// bytes read since the last debug key and not yet sent: each run of bytes
/// between debug keys is sent as one piece when it is not empty, and each
/// debug key becomes a dump, in the order they come.
pub open spec fn actions_from(s: Seq<u8>, start: int, i: int) -> Seq<InputAction>
    decreases s.len() - i,
{
    if i >= s.len() {
        if start < s.len() {
            seq![InputAction::Forward(start as usize, s.len() as usize)]
        } else {
            Seq::empty()
        }
    } else if s[i] == DEBUG_DUMP_KEY {
        (if start < i {
            seq![InputAction::Forward(start as usize, i as usize)]
        } else {
            Seq::empty()
        }) + seq![InputAction::Dump] + actions_from(s, i + 1, i + 1)
    } else {
        actions_from(s, start, i + 1)
    }
}

/// The actions for the whole input `s`.
pub open spec fn input_actions(s: Seq<u8>) -> Seq<InputAction> {
    actions_from(s, 0, 0)
}

/// The bytes that `acts` send to the shell, in order.
pub open spec fn forwarded(s: Seq<u8>, acts: Seq<InputAction>) -> Seq<u8>
    decreases acts.len(),
{
    if acts.len() == 0 {
        Seq::empty()
    } else {
        (match acts[0] {
            InputAction::Forward(a, b) => s.subrange(a as int, b as int),
            InputAction::Dump => Seq::empty(),
        }) + forwarded(s, acts.drop_first())
    }
}

/// The number of dumps in `acts`.
pub open spec fn dump_count(acts: Seq<InputAction>) -> nat
    decreases acts.len(),
{
    if acts.len() == 0 {
        0
    } else {
        (if acts[0] is Dump { 1nat } else { 0nat }) + dump_count(acts.drop_first())
    }
}

/// The bytes of `s` from position `i` on that are not the debug key.
pub open spec fn kept_from(s: Seq<u8>, i: int) -> Seq<u8>
    decreases s.len() - i,
{
    if i >= s.len() {
        Seq::empty()
    } else {
        (if s[i] == DEBUG_DUMP_KEY {
            Seq::empty()
        } else {
            seq![s[i]]
        }) + kept_from(s, i + 1)
    }
}

/// The number of debug keys in `s` from position `i` on.
pub open spec fn keys_from(s: Seq<u8>, i: int) -> nat
    decreases s.len() - i,
{
    if i >= s.len() {
        0
    } else {
        (if s[i] == DEBUG_DUMP_KEY { 1nat } else { 0nat }) + keys_from(s, i + 1)
    }
}

/// Every piece sent is a non-empty range inside the input.
pub open spec fn spans_in_bounds(len: int, acts: Seq<InputAction>) -> bool {
    forall|k: int|
        0 <= k < acts.len() ==> match #[trigger] acts[k] {
            InputAction::Forward(a, b) => a < b <= len,
            InputAction::Dump => true,
        }
}

/// Every piece the actions from `i` on send lies inside the input.
pub proof fn lemma_actions_from_bounds(s: Seq<u8>, start: int, i: int)
    requires
        0 <= start <= i <= s.len(),
        s.len() <= usize::MAX,
    ensures
        spans_in_bounds(s.len() as int, actions_from(s, start, i)),
    decreases s.len() - i,
{
    if i < s.len() {
        if s[i] == DEBUG_DUMP_KEY {
            lemma_actions_from_bounds(s, i + 1, i + 1);
            let head: Seq<InputAction> = if start < i {
                seq![InputAction::Forward(start as usize, i as usize)]
            } else {
                Seq::empty()
            };
            let rest = actions_from(s, i + 1, i + 1);
            assert(actions_from(s, start, i) == head + seq![InputAction::Dump] + rest);
            assert forall|k: int| 0 <= k < actions_from(s, start, i).len() implies match #[trigger] actions_from(
                s,
                start,
                i,
            )[k] {
                InputAction::Forward(a, b) => a < b <= s.len(),
                InputAction::Dump => true,
            } by {
                if k >= head.len() + 1 {
                    assert(actions_from(s, start, i)[k] == rest[k - head.len() - 1]);
                }
            }
        } else {
            lemma_actions_from_bounds(s, start, i + 1);
        }
    }
}

/// `forwarded` of two action lists one after the other.
pub proof fn lemma_forwarded_append(s: Seq<u8>, a: Seq<InputAction>, b: Seq<InputAction>)
    ensures
        forwarded(s, a + b) == forwarded(s, a) + forwarded(s, b),
        dump_count(a + b) == dump_count(a) + dump_count(b),
    decreases a.len(),
{
    if a.len() == 0 {
        assert(a + b =~= b);
    } else {
        assert((a + b).drop_first() =~= a.drop_first() + b);
        lemma_forwarded_append(s, a.drop_first(), b);
    }
}

/// With no debug key in `s[start..i]`, the actions from `i` on send the
/// pending bytes and then every byte from `i` on that is not a debug key,
/// and dump once per debug key from `i` on.
pub proof fn lemma_actions_from_forward(s: Seq<u8>, start: int, i: int)
    requires
        0 <= start <= i <= s.len(),
        s.len() <= usize::MAX,
    ensures
        forwarded(s, actions_from(s, start, i)) == s.subrange(start, i) + kept_from(s, i),
        dump_count(actions_from(s, start, i)) == keys_from(s, i),
    decreases s.len() - i,
{
    if i >= s.len() {
        if start < s.len() {
            let acts = seq![InputAction::Forward(start as usize, s.len() as usize)];
            assert(acts.drop_first() =~= Seq::<InputAction>::empty());
            assert(forwarded(s, acts.drop_first()) == Seq::<u8>::empty());
            assert(dump_count(acts.drop_first()) == 0);
            assert((start as usize) as int == start && (s.len() as usize) as int == s.len());
            assert(forwarded(s, acts) =~= s.subrange(start, i));
        } else {
            assert(s.subrange(start, i) =~= Seq::<u8>::empty());
        }
        assert(s.subrange(start, i) + kept_from(s, i) =~= s.subrange(start, i));
    } else if s[i] == DEBUG_DUMP_KEY {
        lemma_actions_from_forward(s, i + 1, i + 1);
        let head: Seq<InputAction> = if start < i {
            seq![InputAction::Forward(start as usize, i as usize)]
        } else {
            Seq::empty()
        };
        let dump = seq![InputAction::Dump];
        let rest = actions_from(s, i + 1, i + 1);
        lemma_forwarded_append(s, head + dump, rest);
        lemma_forwarded_append(s, head, dump);
        assert(dump.drop_first() =~= Seq::<InputAction>::empty());
        assert(forwarded(s, dump.drop_first()) == Seq::<u8>::empty());
        assert(dump_count(dump.drop_first()) == 0);
        if start < i {
            assert(head.drop_first() =~= Seq::<InputAction>::empty());
            assert(forwarded(s, head.drop_first()) == Seq::<u8>::empty());
            assert(dump_count(head.drop_first()) == 0);
            assert((start as usize) as int == start && (i as usize) as int == i);
            assert(forwarded(s, head) =~= s.subrange(start, i));
        } else {
            assert(head =~= Seq::<InputAction>::empty());
            assert(s.subrange(start, i) =~= Seq::<u8>::empty());
        }
        assert(s.subrange(i + 1, i + 1) =~= Seq::<u8>::empty());
        assert(forwarded(s, actions_from(s, start, i)) =~= s.subrange(start, i) + kept_from(s, i));
    } else {
        lemma_actions_from_forward(s, start, i + 1);
        assert(s.subrange(start, i + 1) =~= s.subrange(start, i) + seq![s[i]]);
        assert(s.subrange(start, i + 1) + kept_from(s, i + 1) =~= s.subrange(start, i) + kept_from(s, i));
    }
}

/// The actions for the user's input `input`: the runs of bytes between
/// debug keys, each sent when not empty, and a dump for each debug key, in
/// the order they come.
pub fn route_input(input: &[u8]) -> (r: Vec<InputAction>)
    ensures
        r@ == input_actions(input@),
        spans_in_bounds(input@.len() as int, r@),
{
    let mut out: Vec<InputAction> = Vec::new();
    let mut start: usize = 0;
    let mut i: usize = 0;
    while i < input.len()
        invariant
            start <= i <= input@.len(),
            out@ + actions_from(input@, start as int, i as int) == input_actions(input@),
        decreases input@.len() - i,
    {
        if input[i] == DEBUG_DUMP_KEY {
            let ghost before = out@;
            let ghost head: Seq<InputAction> = if start < i {
                seq![InputAction::Forward(start, i)]
            } else {
                Seq::empty()
            };
            if start < i {
                out.push(InputAction::Forward(start, i));
            }
            out.push(InputAction::Dump);
            assert(out@ =~= before + head + seq![InputAction::Dump]);
            assert(out@ + actions_from(input@, i + 1, i + 1) =~= before + actions_from(
                input@,
                start as int,
                i as int,
            ));
            start = i + 1;
        }
        i = i + 1;
    }
    let ghost before = out@;
    if start < input.len() {
        out.push(InputAction::Forward(start, input.len()));
    }
    assert(out@ =~= before + actions_from(input@, start as int, i as int));
    proof {
        lemma_actions_from_bounds(input@, 0, 0);
    }
    out
}

} // verus!
