//! The formatter: one line of text from a chain of error messages.

use vstd::prelude::*;
use vstd::string::StringExecFns;

verus! {

/// The one-line rendering of a cause chain: the first (outermost) message,
/// then, for each later message in chain order, the separator followed by
/// that message. A chain of one message is that message alone; an empty
/// chain is the empty line.
pub open spec fn rendered(msgs: Seq<Seq<char>>, sep: Seq<char>) -> Seq<char>
    decreases msgs.len(),
{
    if msgs.len() == 0 {
        Seq::<char>::empty()
    } else if msgs.len() == 1 {
        msgs[0]
    } else {
        msgs[0] + sep + rendered(msgs.drop_first(), sep)
    }
}

/// Appending one more message to a non-empty chain appends one separator and
/// that message to the rendered line.
pub proof fn lemma_rendered_push(msgs: Seq<Seq<char>>, sep: Seq<char>, m: Seq<char>)
    requires
        msgs.len() >= 1,
    ensures
        rendered(msgs.push(m), sep) == rendered(msgs, sep) + sep + m,
    decreases msgs.len(),
{
    assert(msgs.push(m)[0] == msgs[0]);
    if msgs.len() == 1 {
        assert(msgs.push(m).drop_first() =~= seq![m]);
        assert(rendered(seq![m], sep) == m);
        assert(rendered(msgs.push(m), sep) == msgs[0] + sep + m);
        assert(rendered(msgs, sep) + sep + m =~= msgs[0] + sep + m);
    } else {
        lemma_rendered_push(msgs.drop_first(), sep, m);
        assert(msgs.push(m).drop_first() =~= msgs.drop_first().push(m));
        assert(rendered(msgs.push(m), sep) == msgs[0] + sep + (rendered(msgs.drop_first(), sep)
            + sep + m));
        assert(msgs[0] + sep + (rendered(msgs.drop_first(), sep) + sep + m) =~= (msgs[0] + sep
            + rendered(msgs.drop_first(), sep)) + sep + m);
    }
}

/// The offset in the rendered line at which message `i` of the chain begins:
/// the lengths of the messages before it, plus one separator for each.
pub open spec fn message_start(msgs: Seq<Seq<char>>, sep_len: nat, i: int) -> int
    decreases i,
{
    if i <= 0 {
        0
    } else {
        message_start(msgs, sep_len, i - 1) + msgs[i - 1].len() + sep_len
    }
}

proof fn lemma_message_start_shift(msgs: Seq<Seq<char>>, sep_len: nat, i: int)
    requires
        1 <= i < msgs.len(),
    ensures
        message_start(msgs, sep_len, i) == msgs[0].len() + sep_len + message_start(
            msgs.drop_first(),
            sep_len,
            i - 1,
        ),
    decreases i,
{
    if i == 1 {
        assert(message_start(msgs, sep_len, 0) == 0);
        assert(message_start(msgs, sep_len, 1) == msgs[0].len() + sep_len);
        assert(message_start(msgs.drop_first(), sep_len, 0) == 0);
    } else {
        lemma_message_start_shift(msgs, sep_len, i - 1);
        assert(msgs.drop_first()[i - 2] == msgs[i - 1]);
        assert(message_start(msgs.drop_first(), sep_len, i - 1) == message_start(
            msgs.drop_first(),
            sep_len,
            i - 2,
        ) + msgs.drop_first()[i - 2].len() + sep_len);
    }
}

/// The rendered line ends exactly where its last message ends: nothing is
/// dropped, duplicated or added after the chain.
pub proof fn lemma_rendered_len(msgs: Seq<Seq<char>>, sep: Seq<char>)
    requires
        msgs.len() >= 1,
    ensures
        rendered(msgs, sep).len() == message_start(msgs, sep.len(), msgs.len() - 1)
            + msgs.last().len(),
    decreases msgs.len(),
{
    if msgs.len() > 1 {
        lemma_rendered_len(msgs.drop_first(), sep);
        lemma_message_start_shift(msgs, sep.len(), msgs.len() - 1);
        assert(msgs.drop_first().last() == msgs.last());
    }
}

/// Ordering: message `i` of the chain stands unchanged in the rendered line,
/// beginning at its start offset.
pub proof fn lemma_message_at(msgs: Seq<Seq<char>>, sep: Seq<char>, i: int)
    requires
        msgs.len() >= 1,
        0 <= i < msgs.len(),
    ensures
        0 <= message_start(msgs, sep.len(), i),
        message_start(msgs, sep.len(), i) + msgs[i].len() <= rendered(msgs, sep).len(),
        rendered(msgs, sep).subrange(
            message_start(msgs, sep.len(), i),
            message_start(msgs, sep.len(), i) + msgs[i].len(),
        ) == msgs[i],
    decreases msgs.len(),
{
    let r = rendered(msgs, sep);
    let s = message_start(msgs, sep.len(), i);
    if msgs.len() == 1 {
        assert(r.subrange(0, msgs[0].len() as int) =~= msgs[0]);
    } else if i == 0 {
        assert(r == msgs[0] + sep + rendered(msgs.drop_first(), sep));
        assert(r.subrange(0, msgs[0].len() as int) =~= msgs[0]);
    } else {
        lemma_message_at(msgs.drop_first(), sep, i - 1);
        lemma_message_start_shift(msgs, sep.len(), i);
        let h = msgs[0].len() + sep.len();
        let rest = rendered(msgs.drop_first(), sep);
        let s2 = message_start(msgs.drop_first(), sep.len(), i - 1);
        assert(msgs.drop_first()[i - 1] == msgs[i]);
        assert(r == msgs[0] + sep + rest);
        assert(r.subrange(s, s + msgs[i].len()) =~= rest.subrange(s2, s2 + msgs[i].len()));
    }
}

/// Between consecutive messages the rendered line holds exactly one copy of
/// the separator: the stretch from the end of message `i` to the start of
/// message `i + 1` is the separator.
pub proof fn lemma_separator_at(msgs: Seq<Seq<char>>, sep: Seq<char>, i: int)
    requires
        msgs.len() >= 2,
        0 <= i < msgs.len() - 1,
    ensures
        message_start(msgs, sep.len(), i + 1) == message_start(msgs, sep.len(), i)
            + msgs[i].len() + sep.len(),
        0 <= message_start(msgs, sep.len(), i) + msgs[i].len(),
        message_start(msgs, sep.len(), i + 1) <= rendered(msgs, sep).len(),
        rendered(msgs, sep).subrange(
            message_start(msgs, sep.len(), i) + msgs[i].len(),
            message_start(msgs, sep.len(), i) + msgs[i].len() + sep.len(),
        ) == sep,
    decreases msgs.len(),
{
    let r = rendered(msgs, sep);
    let s = message_start(msgs, sep.len(), i) + msgs[i].len();
    let rest = rendered(msgs.drop_first(), sep);
    assert(r == msgs[0] + sep + rest);
    if i == 0 {
        lemma_message_at(msgs, sep, 0);
        if msgs.len() == 2 {
            assert(rest == msgs[1]);
        } else {
            assert(rest == msgs.drop_first()[0] + sep + rendered(
                msgs.drop_first().drop_first(),
                sep,
            ));
        }
        assert(r.subrange(s, s + sep.len()) =~= sep);
    } else {
        lemma_separator_at(msgs.drop_first(), sep, i - 1);
        lemma_message_start_shift(msgs, sep.len(), i);
        lemma_message_start_shift(msgs, sep.len(), i + 1);
        let s2 = message_start(msgs.drop_first(), sep.len(), i - 1) + msgs.drop_first()[i
            - 1].len();
        assert(msgs.drop_first()[i - 1] == msgs[i]);
        assert(r.subrange(s, s + sep.len()) =~= rest.subrange(s2, s2 + sep.len()));
    }
}

/// Separator configurability: rendering one chain with two separators yields
/// lines that differ only in the separator stretches. In both lines every
/// message stands unchanged and in the same chain order, the stretch between
/// two consecutive messages is exactly the line's own separator, and each
/// line ends where its last message ends.
pub proof fn lemma_render_two_separators(
    msgs: Seq<Seq<char>>,
    sep1: Seq<char>,
    sep2: Seq<char>,
    i: int,
)
    requires
        msgs.len() >= 1,
        0 <= i < msgs.len(),
    ensures
        rendered(msgs, sep1).subrange(
            message_start(msgs, sep1.len(), i),
            message_start(msgs, sep1.len(), i) + msgs[i].len(),
        ) == msgs[i],
        rendered(msgs, sep2).subrange(
            message_start(msgs, sep2.len(), i),
            message_start(msgs, sep2.len(), i) + msgs[i].len(),
        ) == msgs[i],
        i < msgs.len() - 1 ==> rendered(msgs, sep1).subrange(
            message_start(msgs, sep1.len(), i) + msgs[i].len(),
            message_start(msgs, sep1.len(), i + 1),
        ) == sep1,
        i < msgs.len() - 1 ==> rendered(msgs, sep2).subrange(
            message_start(msgs, sep2.len(), i) + msgs[i].len(),
            message_start(msgs, sep2.len(), i + 1),
        ) == sep2,
        rendered(msgs, sep1).len() == message_start(msgs, sep1.len(), msgs.len() - 1)
            + msgs.last().len(),
        rendered(msgs, sep2).len() == message_start(msgs, sep2.len(), msgs.len() - 1)
            + msgs.last().len(),
{
    lemma_message_at(msgs, sep1, i);
    lemma_message_at(msgs, sep2, i);
    if i < msgs.len() - 1 {
        lemma_separator_at(msgs, sep1, i);
        lemma_separator_at(msgs, sep2, i);
    }
    lemma_rendered_len(msgs, sep1);
    lemma_rendered_len(msgs, sep2);
}

/// A chain with no cause renders as exactly its one message; the separator
/// never enters the line.
pub proof fn lemma_rendered_single(m: Seq<char>, sep: Seq<char>)
    ensures
        rendered(seq![m], sep) == m,
{
}

/// Rendering is idempotent: the chain is never mutated, and two renderings
/// of the same chain with the same separator are identical lines.
pub proof fn lemma_rendered_idempotent(
    msgs: Seq<Seq<char>>,
    sep: Seq<char>,
    r1: Seq<char>,
    r2: Seq<char>,
)
    requires
        r1 == rendered(msgs, sep),
        r2 == rendered(msgs, sep),
    ensures
        r1 == r2,
{
}

/// A minimal error-report formatter. It holds its one configuration value,
/// the separator put between consecutive messages of a chain, and renders a
/// chain of messages as a single line.
#[derive(Debug)]
pub struct Handler {
    separator: &'static str,
}

impl Handler {
    /// The separator this handler puts between consecutive messages.
    pub closed spec fn sep(&self) -> Seq<char> {
        self.separator@
    }

    /// Construct a new handler which uses the given separator.
    pub fn new(separator: &'static str) -> (h: Handler)
        ensures
            h.sep() == separator@,
    {
        Handler { separator }
    }

    /// Render the display strings of a cause chain, outermost first, as one
    /// line: the first message, then each further message preceded by the
    /// separator. Every message is rendered exactly once, in chain order.
    pub fn render(&self, messages: &Vec<String>) -> (r: String)
        requires
            messages@.len() >= 1,
        ensures
            r@ == rendered(messages@.map_values(|m: String| m@), self.sep()),
    {
        let ghost msgs = messages@.map_values(|m: String| m@);
        let mut r = messages[0].clone();
        let mut i: usize = 1;
        while i < messages.len()
            invariant
                1 <= i <= messages@.len(),
                msgs == messages@.map_values(|m: String| m@),
                r@ == rendered(msgs.take(i as int), self.sep()),
            decreases messages@.len() - i,
        {
            r.append(self.separator);
            r.append(messages[i].as_str());
            proof {
                lemma_rendered_push(msgs.take(i as int), self.sep(), msgs[i as int]);
                assert(msgs.take(i as int + 1) =~= msgs.take(i as int).push(msgs[i as int]));
            }
            i = i + 1;
        }
        proof {
            assert(msgs.take(msgs.len() as int) =~= msgs);
        }
        r
    }
}

} // verus!
