//! Topic classification for the market-data wire format.
//!
//! Topics follow the convention `{kind}__{instrument}` where `kind` is `lob`
//! or `trade` and `instrument` is an exchange symbol (e.g. `btcusdt`).

use vstd::prelude::*;
use vstd::string::*;
use crate::text::text_chars;

verus! {

/// Topic prefix for LOB messages.
pub const LOB_TOPIC_PREFIX: &'static str = "lob__";

/// Topic prefix for trade messages.
pub const TRADE_TOPIC_PREFIX: &'static str = "trade__";

/// The kind name of LOB topics.
pub open spec fn lob_kind() -> Seq<char> {
    seq!['l', 'o', 'b']
}

/// The kind name of trade topics.
pub open spec fn trade_kind() -> Seq<char> {
    seq!['t', 'r', 'a', 'd', 'e']
}

/// The delimiter between a topic's kind and its instrument.
pub open spec fn delimiter() -> Seq<char> {
    seq!['_', '_']
}

/// The instrument that follows `prefix` in `topic`, when `topic` starts with
/// `prefix` and has at least one character after it.
pub open spec fn instrument_after(topic: Seq<char>, prefix: Seq<char>) -> Option<Seq<char>> {
    if prefix.len() < topic.len() && topic.take(prefix.len() as int) == prefix {
        Some(topic.skip(prefix.len() as int))
    } else {
        None
    }
}

/// `("lob", instrument)` for `lob__{instrument}`, `("trade", instrument)` for
/// `trade__{instrument}`, with a non-empty instrument; `None` otherwise.
pub open spec fn spec_classify_topic(topic: Seq<char>) -> Option<(Seq<char>, Seq<char>)> {
    match instrument_after(topic, lob_kind() + delimiter()) {
        Some(inst) => Some((lob_kind(), inst)),
        None => match instrument_after(topic, trade_kind() + delimiter()) {
            Some(inst) => Some((trade_kind(), inst)),
            None => None,
        },
    }
}

/// Whether `topic` holds `__` at position `j`.
pub open spec fn delim_at(topic: Seq<char>, j: int) -> bool {
    0 <= j && j + 1 < topic.len() && topic[j] == '_' && topic[j + 1] == '_'
}

/// Position of the first `__` in `topic`, or `topic.len()` when there is none.
pub open spec fn delimiter_pos(topic: Seq<char>) -> nat
    decreases topic.len(),
{
    if topic.len() < 2 {
        topic.len()
    } else if topic[0] == '_' && topic[1] == '_' {
        0
    } else {
        1 + delimiter_pos(topic.drop_first())
    }
}

/// `(kind, instrument)` around the first `__` of `topic`, when both are
/// non-empty; `None` otherwise.
pub open spec fn spec_extract_topic_segment(topic: Seq<char>) -> Option<(Seq<char>, Seq<char>)> {
    let i = delimiter_pos(topic);
    if i < topic.len() && i > 0 && i + 2 < topic.len() {
        Some((topic.take(i as int), topic.skip(i + 2int)))
    } else {
        None
    }
}

/// The characters after `prefix` in `topic`, when `topic` starts with `prefix`
/// and is longer than it.
fn strip_nonempty_prefix<'a>(topic: &'a str, chars: &Vec<char>, prefix: &str) -> (r: Option<
    &'a str,
>)
    requires
        chars@ == topic@,
    ensures
        r matches Some(inst) ==> instrument_after(topic@, prefix@) == Some(inst@),
        r is None ==> instrument_after(topic@, prefix@) is None,
{
    let p = text_chars(prefix);
    let n = chars.len();
    if p.len() >= n {
        return None;
    }
    let mut i: usize = 0;
    while i < p.len()
        invariant
            p@ == prefix@,
            chars@ == topic@,
            n == chars@.len(),
            p@.len() < n,
            i <= p@.len(),
            forall|j: int| 0 <= j < i ==> chars@[j] == p@[j],
        decreases p@.len() - i,
    {
        if chars[i] != p[i] {
            assert(topic@.take(p@.len() as int)[i as int] != prefix@[i as int]);
            return None;
        }
        i = i + 1;
    }
    assert(topic@.take(p@.len() as int) =~= prefix@);
    Some(topic.substring_char(p.len(), n))
}

/// The kind of a classified topic.
#[derive(Debug, Clone, Copy, PartialEq, Eq, Structural)]
pub enum TopicKind {
    Lob,
    Trade,
}

/// The kind name of a topic kind: `lob` or `trade`.
pub open spec fn kind_name(kind: TopicKind) -> Seq<char> {
    match kind {
        TopicKind::Lob => lob_kind(),
        TopicKind::Trade => trade_kind(),
    }
}

/// Classify a topic by kind, with its instrument; `None` when the topic
/// matches neither prefix or has an empty instrument.
pub fn topic_kind(topic: &str) -> (r: Option<(TopicKind, &str)>)
    ensures
        r is None <==> spec_classify_topic(topic@) is None,
        r matches Some((kind, inst)) ==> spec_classify_topic(topic@) == Some(
            (kind_name(kind), inst@),
        ),
{
    proof {
        reveal_strlit("lob__");
        reveal_strlit("trade__");
        assert(LOB_TOPIC_PREFIX@ =~= lob_kind() + delimiter());
        assert(TRADE_TOPIC_PREFIX@ =~= trade_kind() + delimiter());
    }
    let chars = text_chars(topic);
    if let Some(inst) = strip_nonempty_prefix(topic, &chars, LOB_TOPIC_PREFIX) {
        return Some((TopicKind::Lob, inst));
    }
    if let Some(inst) = strip_nonempty_prefix(topic, &chars, TRADE_TOPIC_PREFIX) {
        return Some((TopicKind::Trade, inst));
    }
    None
}

/// Classify a topic into `("lob" | "trade", instrument)`, or `None` when the
/// topic matches neither prefix or has an empty instrument.
pub fn classify_topic(topic: &str) -> (r: Option<(&'static str, &str)>)
    ensures
        r is None <==> spec_classify_topic(topic@) is None,
        r matches Some((kind, inst)) ==> spec_classify_topic(topic@) == Some((kind@, inst@)),
{
    proof {
        reveal_strlit("lob");
        reveal_strlit("trade");
        assert("lob"@ =~= lob_kind());
        assert("trade"@ =~= trade_kind());
    }
    match topic_kind(topic) {
        Some((TopicKind::Lob, inst)) => Some(("lob", inst)),
        Some((TopicKind::Trade, inst)) => Some(("trade", inst)),
        None => None,
    }
}

proof fn lemma_delimiter_pos(topic: Seq<char>)
    ensures
        delimiter_pos(topic) <= topic.len(),
        delimiter_pos(topic) < topic.len() ==> delimiter_pos(topic) + 1 < topic.len() && topic[delimiter_pos(topic) as int] == '_'
            && topic[delimiter_pos(topic) + 1int] == '_',
        forall|j: int|
            0 <= j < delimiter_pos(topic) && j + 1 < topic.len() ==> !delim_at(topic, j),
    decreases topic.len(),
{
    if topic.len() >= 2 && !(topic[0] == '_' && topic[1] == '_') {
        let rest = topic.drop_first();
        lemma_delimiter_pos(rest);
        assert forall|j: int|
            0 <= j < delimiter_pos(topic) && j + 1 < topic.len() implies !delim_at(topic, j) by {
            if j > 0 {
                assert(topic[j] == rest[j - 1]);
                assert(topic[j + 1] == rest[j]);
                assert(!delim_at(rest, j - 1));
            }
        }
    }
}

proof fn lemma_delimiter_pos_at(topic: Seq<char>, i: int)
    requires
        0 <= i <= topic.len(),
        i + 1 < topic.len() ==> topic[i] == '_' && topic[i + 1] == '_',
        i + 1 >= topic.len() ==> i == topic.len(),
        forall|j: int| 0 <= j < i && j + 1 < topic.len() ==> !delim_at(topic, j),
    ensures
        delimiter_pos(topic) == i,
    decreases topic.len(),
{
    if topic.len() >= 2 && i > 0 {
        assert(!delim_at(topic, 0));
        let rest = topic.drop_first();
        assert forall|j: int|
            0 <= j < i - 1 && j + 1 < rest.len() implies !delim_at(rest, j) by {
            assert(rest[j] == topic[j + 1]);
            assert(rest[j + 1] == topic[j + 2]);
            assert(!delim_at(topic, j + 1));
        }
        lemma_delimiter_pos_at(rest, i - 1);
    }
}

/// Extract the `(kind, instrument)` pair from a topic of the form
/// `{kind}__{instrument}`: `kind` is everything before the first `__` and
/// `instrument` everything after it. Returns `None` when the topic has no `__`
/// or either segment is empty.
pub fn extract_topic_segment(topic: &str) -> (r: Option<(&str, &str)>)
    ensures
        r is None <==> spec_extract_topic_segment(topic@) is None,
        r matches Some((kind, inst)) ==> spec_extract_topic_segment(topic@) == Some(
            (kind@, inst@),
        ),
{
    proof {
        lemma_delimiter_pos(topic@);
    }
    let chars = text_chars(topic);
    let n = chars.len();
    let mut i: usize = 0;
    while n > 0 && i < n - 1
        invariant
            chars@ == topic@,
            n == chars@.len(),
            i <= n,
            forall|j: int| 0 <= j < i && j + 1 < n ==> !delim_at(chars@, j),
        decreases n - i,
    {
        if chars[i] == '_' && chars[i + 1] == '_' {
            proof {
                lemma_delimiter_pos_at(topic@, i as int);
            }
            if i == 0 || i + 2 >= n {
                return None;
            }
            let kind = topic.substring_char(0, i);
            let inst = topic.substring_char(i + 2, n);
            assert(kind@ =~= topic@.take(i as int));
            assert(inst@ =~= topic@.skip(i + 2));
            return Some((kind, inst));
        }
        i = i + 1;
    }
    proof {
        if n >= 1 {
            lemma_delimiter_pos_at(topic@, n as int);
        }
    }
    None
}

/// A topic that classifies as `lob` or `trade` splits the same way at its
/// first `__`: classification agrees with the generic segment extraction.
pub proof fn lemma_classify_agrees_with_segments(topic: Seq<char>)
    requires
        spec_classify_topic(topic) is Some,
    ensures
        spec_extract_topic_segment(topic) == spec_classify_topic(topic),
{
    lemma_delimiter_pos(topic);
    let kind = spec_classify_topic(topic).unwrap().0;
    assert(forall|j: int| 0 <= j < kind.len() ==> kind[j] != '_');
    let prefix = kind + delimiter();
    assert(topic.take(prefix.len() as int) == prefix);
    assert forall|j: int|
        0 <= j < kind.len() && j + 1 < topic.len() implies !delim_at(topic, j) by {
        assert(topic[j] == topic.take(prefix.len() as int)[j]);
    }
    assert(topic[kind.len() as int] == topic.take(prefix.len() as int)[kind.len() as int]);
    assert(topic[kind.len() + 1int] == topic.take(prefix.len() as int)[kind.len() + 1int]);
    lemma_delimiter_pos_at(topic, kind.len() as int);
    assert(topic.take(kind.len() as int) =~= kind);
}


/// A topic is classified exactly when it is `lob__` or `trade__` followed by
/// a non-empty instrument, whatever characters the instrument holds, and the
/// topic is then its kind, `__` and its instrument.
pub proof fn lemma_classify_topic_exact(topic: Seq<char>, inst: Seq<char>)
    ensures
        inst.len() > 0 ==> spec_classify_topic(seq!['l', 'o', 'b', '_', '_'] + inst) == Some(
            (seq!['l', 'o', 'b'], inst),
        ),
        inst.len() > 0 ==> spec_classify_topic(seq!['t', 'r', 'a', 'd', 'e', '_', '_'] + inst) == Some(
            (seq!['t', 'r', 'a', 'd', 'e'], inst),
        ),
        spec_classify_topic(topic) matches Some((k, i)) ==> {
            &&& i.len() > 0
            &&& k == seq!['l', 'o', 'b'] || k == seq!['t', 'r', 'a', 'd', 'e']
            &&& topic == k + seq!['_', '_'] + i
        },
{
    let lp = seq!['l', 'o', 'b', '_', '_'];
    let tp = seq!['t', 'r', 'a', 'd', 'e', '_', '_'];
    assert(lob_kind() + delimiter() =~= lp);
    assert(trade_kind() + delimiter() =~= tp);
    if inst.len() > 0 {
        assert((lp + inst).take(5) =~= lp);
        assert((lp + inst).skip(5) =~= inst);
        assert((tp + inst).take(7) =~= tp);
        assert((tp + inst).skip(7) =~= inst);
        assert((tp + inst)[0] == 't');
        assert(lp[0] == 'l');
        assert((tp + inst).take(5)[0] != lp[0]);
    }
    if let Some((k, i)) = spec_classify_topic(topic) {
        if instrument_after(topic, lp) is Some {
            assert(topic =~= topic.take(5) + topic.skip(5));
            assert(lp =~= seq!['l', 'o', 'b'] + seq!['_', '_']);
        } else {
            assert(topic =~= topic.take(7) + topic.skip(7));
            assert(tp =~= seq!['t', 'r', 'a', 'd', 'e'] + seq!['_', '_']);
        }
    }
}

} // verus!
