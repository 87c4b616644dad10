//! Framing of the service's event stream: events are separated by a blank
//! line, and carry `event: ` and `data: ` fields.
use vstd::prelude::*;
use crate::text::{chars_of, opt_view, starts_with, string_of_range};
use crate::hook::{line_bounds, lines_of, spans};

verus! {

/// Index of the first blank line (`\n\n`) in `s`, or -1.
pub open spec fn first_break(s: Seq<char>) -> int
    decreases s.len(),
{
    if s.len() < 2 {
        -1
    } else if s[0] == '\n' && s[1] == '\n' {
        0
    } else {
        let r = first_break(s.drop_first());
        if r < 0 {
            -1
        } else {
            r + 1
        }
    }
}

/// The complete events at the front of `s`, and what is left over.
pub open spec fn split_events(s: Seq<char>) -> (Seq<Seq<char>>, Seq<char>)
    decreases s.len(),
{
    let i = first_break(s);
    if i < 0 || i + 2 > s.len() {
        (Seq::empty(), s)
    } else {
        let rest = split_events(s.subrange(i + 2, s.len() as int));
        (seq![s.subrange(0, i)] + rest.0, rest.1)
    }
}

/// The text after `prefix` on the last line that starts with it.
pub open spec fn last_field(lines: Seq<Seq<char>>, prefix: Seq<char>) -> Option<Seq<char>>
    decreases lines.len(),
{
    if lines.len() == 0 {
        None
    } else if starts_with(lines.last(), prefix) {
        Some(lines.last().subrange(prefix.len() as int, lines.last().len() as int))
    } else {
        last_field(lines.drop_last(), prefix)
    }
}

/// One event of the stream.
#[derive(Debug, Clone, PartialEq, Eq)]
pub struct SseEvent {
    pub event_type: Option<String>,
    pub data: Option<String>,
}

pub open spec fn event_matches(e: SseEvent, raw: Seq<char>) -> bool {
    opt_view(e.event_type) == last_field(lines_of(raw), "event: "@) && opt_view(e.data)
        == last_field(lines_of(raw), "data: "@)
}

/// Text received but not yet split into events.
#[derive(Debug, Default)]
pub struct SseDecoder {
    pub buffer: String,
}

proof fn lemma_first_break_at(s: Seq<char>, k: int)
    requires
        0 <= k,
        forall|j: int| 0 <= j < k && j + 1 < s.len() ==> !(s[j] == '\n' && #[trigger] s[j + 1] == '\n'),
        (k + 1 < s.len() && s[k] == '\n' && s[k + 1] == '\n') || k + 1 >= s.len(),
    ensures
        first_break(s) == (if k + 1 < s.len() { k } else { -1 }),
    decreases k,
{
    if s.len() >= 2 && k > 0 {
        let t = s.drop_first();
        assert forall|j: int| 0 <= j < k - 1 && j + 1 < t.len() implies !(t[j] == '\n' && #[trigger] t[j + 1] == '\n') by {
            assert(t[j] == s[j + 1] && t[j + 1] == s[j + 2]);
        }
        if k + 1 < s.len() {
            assert(t[k - 1] == s[k] && t[k] == s[k + 1]);
        }
        assert(!(s[0] == '\n' && s[0int + 1] == '\n'));
        lemma_first_break_at(t, k - 1);
    }
}

/// Bounds of the text after `prefix` on the last of `lines` that starts
/// with it, as `last_field` says.
fn find_last_field(v: &Vec<char>, lines: &Vec<(usize, usize)>, prefix: &str) -> (r: Option<String>)
    requires
        forall|q: int| 0 <= q < lines@.len() ==> lines@[q].0 <= #[trigger] lines@[q].1 <= v@.len(),
    ensures
        opt_view(r) == last_field(spans(v@, lines@), prefix@),
{
    let p = chars_of(prefix);
    let mut k = lines.len();
    assert(spans(v@, lines@).subrange(0, k as int) == spans(v@, lines@));
    while k > 0
        invariant
            k <= lines@.len(),
            p@ == prefix@,
            forall|q: int| 0 <= q < lines@.len() ==> lines@[q].0 <= #[trigger] lines@[q].1 <= v@.len(),
            last_field(spans(v@, lines@), prefix@) == last_field(spans(v@, lines@).subrange(0, k as int), prefix@),
        decreases k,
    {
        let (a, b) = lines[k - 1];
        let ghost l = v@.subrange(a as int, b as int);
        let ghost sp = spans(v@, lines@).subrange(0, k as int);
        assert(sp.last() == l);
        assert(sp.drop_last() == spans(v@, lines@).subrange(0, k - 1));
        if b - a >= p.len() {
            let mut i: usize = 0;
            let mut same = true;
            while i < p.len()
                invariant
                    a <= b <= v@.len(),
                    b - a >= p@.len(),
                    i <= p@.len(),
                    same == (forall|j: int| 0 <= j < i ==> v@[a + j] == #[trigger] p@[j]),
                decreases p@.len() - i,
            {
                if v[a + i] != p[i] {
                    same = false;
                }
                i = i + 1;
            }
            proof {
                if same {
                    assert(l.subrange(0, p@.len() as int) =~= p@);
                } else {
                    let j = choose|j: int| 0 <= j < p@.len() && v@[a + j] != #[trigger] p@[j];
                    assert(l.subrange(0, p@.len() as int)[j] == v@[a + j]);
                }
            }
            if same {
                assert(l.subrange(p@.len() as int, l.len() as int) == v@.subrange(a + p@.len(), b as int));
                return Some(string_of_range(v, a + p.len(), b));
            }
        }
        k = k - 1;
    }
    None
}

impl SseDecoder {
    pub fn new() -> (r: SseDecoder)
        ensures
            r.buffer@.len() == 0,
    {
        SseDecoder { buffer: String::new() }
    }

    /// Takes in received text and returns the events it completes, in
    /// order; an incomplete event stays buffered.
    pub fn push(&mut self, chunk: &str) -> (r: Vec<SseEvent>)
        ensures
            ({
                let (raws, rest) = split_events(old(self).buffer@ + chunk@);
                &&& final(self).buffer@ == rest
                &&& r@.len() == raws.len()
                &&& forall|k: int| 0 <= k < raws.len() ==> event_matches(#[trigger] r@[k], raws[k])
            }),
    {
        let ghost all = self.buffer@ + chunk@;
        self.buffer.append(chunk);
        let v = chars_of(self.buffer.as_str());
        let n = v.len();
        let mut out: Vec<SseEvent> = Vec::new();
        let mut pos: usize = 0;
        let ghost mut raws: Seq<Seq<char>> = Seq::empty();
        assert(v@.subrange(0, n as int) == v@);
        loop
            invariant
                v@ == all,
                all == old(self).buffer@ + chunk@,
                n == v@.len(),
                pos <= n,
                out@.len() == raws.len(),
                forall|k: int| 0 <= k < raws.len() ==> event_matches(#[trigger] out@[k], raws[k]),
                split_events(all).0 == raws + split_events(v@.subrange(pos as int, n as int)).0,
                split_events(all).1 == split_events(v@.subrange(pos as int, n as int)).1,
            decreases n - pos,
        {
            let ghost s = v@.subrange(pos as int, n as int);
            let mut j = pos;
            while n > 0 && j < n - 1 && !(v[j] == '\n' && v[j + 1] == '\n')
                invariant
                    pos <= j <= n,
                    n == v@.len(),
                    s == v@.subrange(pos as int, n as int),
                    forall|q: int| pos <= q < j && q + 1 < n ==> !(v@[q] == '\n' && #[trigger] v@[q + 1] == '\n'),
                decreases n - j,
            {
                j = j + 1;
            }
            proof {
                assert forall|q: int| 0 <= q < j - pos && q + 1 < s.len() implies !(s[q] == '\n' && #[trigger] s[q + 1] == '\n') by {
                    assert(s[q] == v@[pos + q] && s[q + 1] == v@[pos + q + 1]);
                }
                if j + 1 < n {
                    assert(s[j - pos] == v@[j as int] && s[j - pos + 1] == v@[j + 1]);
                }
                lemma_first_break_at(s, j - pos);
            }
            if !(n > 0 && j < n - 1) {
                self.buffer = string_of_range(&v, pos, n);
                assert(split_events(s).0 =~= Seq::<Seq<char>>::empty());
                assert(raws + split_events(s).0 =~= raws);
                return out;
            }
            let raw_lines = {
                let raw = string_of_range(&v, pos, j);
                let rv = chars_of(raw.as_str());
                let lines = line_bounds(&rv);
                let event_type = find_last_field(&rv, &lines, "event: ");
                let data = find_last_field(&rv, &lines, "data: ");
                let ghost before = out@;
                out.push(SseEvent { event_type, data });
                assert(event_matches(out@[out@.len() - 1], rv@));
                assert(forall|k: int| 0 <= k < before.len() ==> out@[k] == before[k]);
                rv
            };
            proof {
                let raw = v@.subrange(pos as int, j as int);
                assert(raw_lines@ == raw);
                assert(s.subrange(0, j - pos) == raw);
                assert(s.subrange(j - pos + 2, s.len() as int) == v@.subrange(j + 2, n as int));
                let old_raws = raws;
                raws = raws.push(raw);
                assert forall|k: int| 0 <= k < raws.len() implies event_matches(#[trigger] out@[k], raws[k]) by {
                    if k < old_raws.len() {
                        assert(raws[k] == old_raws[k]);
                    }
                }
                assert(seq![raw] + split_events(v@.subrange(j + 2, n as int)).0 == split_events(s).0);
                assert(raws + split_events(v@.subrange(j + 2, n as int)).0 =~= (raws.drop_last() + split_events(s).0));
            }
            pos = j + 2;
        }
    }
}

} // verus!
