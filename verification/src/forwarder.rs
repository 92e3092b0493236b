//! Decisions of the forwarder process: the broker list it is given, where
//! each received item goes, and when a silent feed is worth a warning.

use vstd::prelude::*;
use crate::items::MarketDataItem;
use crate::text::{string_from_chars, text_chars};
use crate::topics::{TopicKind, lob_kind, spec_classify_topic, topic_kind, trade_kind};

verus! {

/// The Unicode `White_Space` property, which `char::is_whitespace` reports:
/// U+0009 to U+000D, U+0020, U+0085, U+00A0, U+1680, U+2000 to U+200A,
/// U+2028, U+2029, U+202F, U+205F and U+3000.
pub open spec fn unicode_white_space(c: char) -> bool {
    let n = c as int;
    ||| 0x09 <= n <= 0x0d
    ||| n == 0x20
    ||| n == 0x85
    ||| n == 0xa0
    ||| n == 0x1680
    ||| 0x2000 <= n <= 0x200a
    ||| n == 0x2028
    ||| n == 0x2029
    ||| n == 0x202f
    ||| n == 0x205f
    ||| n == 0x3000
}

/// Whether the character is white space (as `char::is_whitespace`).
pub fn is_white_space(c: char) -> (r: bool)
    ensures
        r == unicode_white_space(c),
{
    let n = c as u32;
    (0x09 <= n && n <= 0x0d) || n == 0x20 || n == 0x85 || n == 0xa0 || n == 0x1680 || (0x2000
        <= n && n <= 0x200a) || n == 0x2028 || n == 0x2029 || n == 0x202f || n == 0x205f || n
        == 0x3000
}

/// `s` split at every `sep` (as `str::split` does: `n` separators give `n + 1`
/// pieces, some possibly empty).
pub open spec fn split_on(s: Seq<char>, sep: char) -> Seq<Seq<char>>
    decreases s.len(),
{
    if s.len() == 0 {
        seq![Seq::empty()]
    } else {
        let pieces = split_on(s.drop_last(), sep);
        if s.last() == sep {
            pieces.push(Seq::empty())
        } else {
            pieces.update(pieces.len() - 1, pieces.last().push(s.last()))
        }
    }
}

/// `s` without its leading white space.
pub open spec fn trim_start(s: Seq<char>) -> Seq<char>
    decreases s.len(),
{
    if s.len() > 0 && unicode_white_space(s[0]) {
        trim_start(s.drop_first())
    } else {
        s
    }
}

/// `s` without its trailing white space.
pub open spec fn trim_end(s: Seq<char>) -> Seq<char>
    decreases s.len(),
{
    if s.len() > 0 && unicode_white_space(s.last()) {
        trim_end(s.drop_last())
    } else {
        s
    }
}

/// `s` without leading and trailing white space (`str::trim`).
pub open spec fn trim(s: Seq<char>) -> Seq<char> {
    trim_end(trim_start(s))
}

/// The broker addresses of a comma-separated list: each piece trimmed of
/// white space, empty pieces dropped, in order.
pub open spec fn spec_nng_addrs(s: Seq<char>) -> Seq<Seq<char>> {
    split_on(s, ',').map_values(|p: Seq<char>| trim(p)).filter(|p: Seq<char>| p.len() > 0)
}

proof fn lemma_trim_start_at(s: Seq<char>, a: int)
    requires
        0 <= a <= s.len(),
        forall|j: int| 0 <= j < a ==> unicode_white_space(#[trigger] s[j]),
        a < s.len() ==> !unicode_white_space(s[a]),
    ensures
        trim_start(s) == s.skip(a),
    decreases a,
{
    if a > 0 {
        assert forall|j: int| 0 <= j < a - 1 implies unicode_white_space(
            #[trigger] s.drop_first()[j],
        ) by {
            assert(s.drop_first()[j] == s[j + 1]);
        }
        lemma_trim_start_at(s.drop_first(), a - 1);
        assert(s.drop_first().skip(a - 1) =~= s.skip(a));
    } else {
        assert(s.skip(0) =~= s);
    }
}

proof fn lemma_trim_end_at(s: Seq<char>, b: int)
    requires
        0 <= b <= s.len(),
        forall|j: int| b <= j < s.len() ==> unicode_white_space(#[trigger] s[j]),
        b > 0 ==> !unicode_white_space(s[b - 1]),
    ensures
        trim_end(s) == s.take(b),
    decreases s.len() - b,
{
    if b < s.len() {
        assert forall|j: int| b <= j < s.drop_last().len() implies unicode_white_space(
            #[trigger] s.drop_last()[j],
        ) by {
            assert(s.drop_last()[j] == s[j]);
        }
        lemma_trim_end_at(s.drop_last(), b);
        assert(s.drop_last().take(b) =~= s.take(b));
    } else {
        assert(s.take(b) =~= s);
    }
}

/// Push `trim(cs[from..to])` to `out` unless it is empty.
fn push_trimmed_piece(out: &mut Vec<String>, cs: &Vec<char>, from: usize, to: usize)
    requires
        from <= to <= cs@.len(),
    ensures
        ({
            let t = trim(cs@.subrange(from as int, to as int));
            if t.len() > 0 {
                final(out)@.len() == old(out)@.len() + 1 && final(out)@.take(old(out)@.len() as int) == old(out)@
                    && final(out)@.last()@ == t
            } else {
                final(out)@ == old(out)@
            }
        }),
{
    let ghost piece = cs@.subrange(from as int, to as int);
    let mut a = from;
    while a < to && is_white_space(cs[a])
        invariant
            from <= a <= to <= cs@.len(),
            piece == cs@.subrange(from as int, to as int),
            forall|j: int| 0 <= j < a - from ==> unicode_white_space(#[trigger] piece[j]),
        decreases to - a,
    {
        a = a + 1;
    }
    proof {
        lemma_trim_start_at(piece, a - from);
    }
    let ghost started = piece.skip(a - from);
    let mut b = to;
    while b > a && is_white_space(cs[b - 1])
        invariant
            from <= a <= b <= to <= cs@.len(),
            started == cs@.subrange(a as int, to as int),
            forall|j: int| b - a <= j < started.len() ==> unicode_white_space(#[trigger] started[j]),
        decreases b,
    {
        b = b - 1;
    }
    proof {
        assert(started =~= cs@.subrange(a as int, to as int));
        lemma_trim_end_at(started, b - a);
        assert(started.take(b - a) =~= cs@.subrange(a as int, b as int));
    }
    if b > a {
        let ghost before = out@;
        out.push(string_from_chars(cs, a, b));
        assert(out@.take(before.len() as int) =~= before);
    }
}

proof fn lemma_split_on_push(s: Seq<char>, c: char, sep: char)
    ensures
        split_on(s.push(c), sep) == if c == sep {
            split_on(s, sep).push(Seq::empty())
        } else {
            split_on(s, sep).update(
                split_on(s, sep).len() - 1,
                split_on(s, sep).last().push(c),
            )
        },
{
    assert(s.push(c).drop_last() =~= s);
}

proof fn lemma_split_on_len(s: Seq<char>, sep: char)
    ensures
        split_on(s, sep).len() >= 1,
    decreases s.len(),
{
    if s.len() > 0 {
        lemma_split_on_len(s.drop_last(), sep);
    }
}

/// Parse a comma-separated list of NNG broker addresses: white space around
/// each address is trimmed and empty entries are dropped.
pub fn parse_nng_addrs(addrs: &str) -> (r: Vec<String>)
    ensures
        r@.map_values(|a: String| a@) == spec_nng_addrs(addrs@),
{
    let cs = text_chars(addrs);
    let ghost f = |p: Seq<char>| trim(p);
    let ghost keep = |p: Seq<char>| p.len() > 0;
    let mut out: Vec<String> = Vec::new();
    let mut start: usize = 0;
    let mut i: usize = 0;
    assert(cs@.take(0) =~= Seq::<char>::empty());
    assert(Seq::<Seq<char>>::empty().filter(keep) =~= Seq::<Seq<char>>::empty()) by {
        reveal(Seq::filter);
    }
    while i < cs.len()
        invariant
            cs@ == addrs@,
            f == (|p: Seq<char>| trim(p)),
            keep == (|p: Seq<char>| p.len() > 0),
            start <= i <= cs@.len(),
            split_on(cs@.take(i as int), ',').len() >= 1,
            split_on(cs@.take(i as int), ',').last() == cs@.subrange(start as int, i as int),
            out@.map_values(|a: String| a@) == split_on(cs@.take(i as int), ',').drop_last().map_values(
                f,
            ).filter(keep),
        decreases cs@.len() - i,
    {
        let ghost pieces = split_on(cs@.take(i as int), ',');
        proof {
            assert(cs@.take(i + 1) =~= cs@.take(i as int).push(cs@[i as int]));
            lemma_split_on_push(cs@.take(i as int), cs@[i as int], ',');
        }
        if cs[i] == ',' {
            let ghost before = out@;
            push_trimmed_piece(&mut out, &cs, start, i);
            proof {
                let new_pieces = split_on(cs@.take(i + 1), ',');
                assert(new_pieces.drop_last() =~= pieces);
                assert(pieces =~= pieces.drop_last().push(pieces.last()));
                assert(pieces.map_values(f) =~= pieces.drop_last().map_values(f).push(f(pieces.last())));
                pieces.drop_last().map_values(f).lemma_filter_push(f(pieces.last()), keep);
                assert(new_pieces.last() =~= cs@.subrange(i + 1, i + 1));
                assert(f(pieces.last()) == trim(pieces.last()));
                if trim(pieces.last()).len() > 0 {
                    assert(keep(f(pieces.last())));
                    assert(out@ =~= before.push(out@.last()));
                    assert(out@.map_values(|a: String| a@) =~= before.map_values(|a: String| a@).push(
                        trim(pieces.last()),
                    ));
                } else {
                    assert(!keep(f(pieces.last())));
                    assert(out@.map_values(|a: String| a@) =~= before.map_values(|a: String| a@));
                }
            }
            start = i + 1;
        } else {
            proof {
                let new_pieces = split_on(cs@.take(i + 1), ',');
                assert(new_pieces.drop_last() =~= pieces.drop_last());
                assert(new_pieces.last() =~= cs@.subrange(start as int, i + 1));
            }
        }
        i = i + 1;
    }
    let ghost pieces = split_on(cs@.take(i as int), ',');
    let ghost before = out@;
    push_trimmed_piece(&mut out, &cs, start, i);
    proof {
        assert(cs@.take(i as int) =~= addrs@);
        assert(pieces =~= pieces.drop_last().push(pieces.last()));
        assert(pieces.map_values(f) =~= pieces.drop_last().map_values(f).push(f(pieces.last())));
        pieces.drop_last().map_values(f).lemma_filter_push(f(pieces.last()), keep);
        assert(f(pieces.last()) == trim(pieces.last()));
        if trim(pieces.last()).len() > 0 {
            assert(keep(f(pieces.last())));
            assert(out@ =~= before.push(out@.last()));
            assert(out@.map_values(|a: String| a@) =~= before.map_values(|a: String| a@).push(
                trim(pieces.last()),
            ));
        } else {
            assert(!keep(f(pieces.last())));
            assert(out@.map_values(|a: String| a@) =~= before.map_values(|a: String| a@));
        }
    }
    out
}

/// Seconds without any message after which the receive loop warns that the
/// NNG broker may be down.
pub const RECV_TIMEOUT_WARN_INTERVAL_SECS: u64 = 5;

/// Whether a receive timeout, `elapsed_secs` after the last message or the
/// last warning, calls for a "broker may be down" warning.
pub fn silence_warning_due(elapsed_secs: u64) -> (r: bool)
    ensures
        r == (elapsed_secs >= RECV_TIMEOUT_WARN_INTERVAL_SECS),
{
    elapsed_secs >= RECV_TIMEOUT_WARN_INTERVAL_SECS
}

/// Where a received item goes.
#[derive(Debug, PartialEq, Eq)]
pub enum MessageRoute<'a> {
    /// A LOB item on a `lob__{instrument}` topic: persist it for the instrument.
    Lob(&'a str),
    /// A trade item on a `trade__{instrument}` topic: persist it for the
    /// instrument.
    Trade(&'a str),
    /// The item's kind differs from its topic's: warn and drop it.
    KindMismatch,
    /// The topic is neither a LOB nor a trade topic: the message is an error.
    UnrecognisedTopic,
}

/// Route an item by its topic: an unrecognised topic is an error; an item
/// whose kind matches the topic's kind is persisted for the topic's
/// instrument; any other pairing is a mismatch.
pub fn route_message<'a>(topic: &'a str, item: &MarketDataItem) -> (r: MessageRoute<'a>)
    ensures
        match spec_classify_topic(topic@) {
            None => r == MessageRoute::UnrecognisedTopic,
            Some((kind, inst)) => match (item, r) {
                (MarketDataItem::Lob(_), MessageRoute::Lob(i)) => kind == lob_kind() && i@ == inst,
                (MarketDataItem::Trade(_), MessageRoute::Trade(i)) => kind == trade_kind() && i@ == inst,
                (MarketDataItem::Lob(_), MessageRoute::KindMismatch) => kind != lob_kind(),
                (MarketDataItem::Trade(_), MessageRoute::KindMismatch) => kind != trade_kind(),
                _ => false,
            },
        },
{
    assert(lob_kind() != trade_kind()) by {
        assert(lob_kind().len() != trade_kind().len());
    }
    match topic_kind(topic) {
        None => MessageRoute::UnrecognisedTopic,
        Some((kind, inst)) => match (item, kind) {
            (MarketDataItem::Lob(_), TopicKind::Lob) => MessageRoute::Lob(inst),
            (MarketDataItem::Trade(_), TopicKind::Trade) => MessageRoute::Trade(inst),
            _ => MessageRoute::KindMismatch,
        },
    }
}

} // verus!
