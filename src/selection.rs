//! Parsing of a free-form suggestion selection into sorted, distinct indices.
use vstd::prelude::*;
use crate::text::{
    chars_of, eq_ignore_ascii_case, push_decimal, range_eq_ignore_ascii_case, string_of_range,
    trim, trim_bounds, decimal,
};

verus! {

/// What a selection, or a piece of one, asks for.
pub enum Pick {
    /// Every index below the maximum.
    All,
    /// The selection is rejected.
    Fail(SelectionFault),
    /// These zero-based indices.
    Chosen(Set<int>),
}

/// Why a selection was rejected, with the offending token.
pub enum SelectionFault {
    BadRangeNumber(Seq<char>, nat),
    RangeOutOfBounds(Seq<char>, nat),
    BadSelection(Seq<char>, nat),
    NumberOutOfBounds(Seq<char>, nat, nat),
}

/// A rejected selection.
#[derive(Debug, Clone, PartialEq, Eq)]
pub enum SelectionError {
    /// A bound of the range `part` is not a number.
    BadRangeNumber { part: String, max: usize },
    /// A bound of the range `part` lies outside `1..=max`.
    RangeOutOfBounds { part: String, max: usize },
    /// `part` is neither a number, a range nor `all`.
    BadSelection { part: String, max: usize },
    /// The number `num`, written `part`, lies outside `1..=max`.
    NumberOutOfBounds { part: String, num: usize, max: usize },
}

impl View for SelectionError {
    type V = SelectionFault;

    open spec fn view(&self) -> SelectionFault {
        match self {
            SelectionError::BadRangeNumber { part, max } => SelectionFault::BadRangeNumber(
                part@,
                *max as nat,
            ),
            SelectionError::RangeOutOfBounds { part, max } => SelectionFault::RangeOutOfBounds(
                part@,
                *max as nat,
            ),
            SelectionError::BadSelection { part, max } => SelectionFault::BadSelection(
                part@,
                *max as nat,
            ),
            SelectionError::NumberOutOfBounds { part, num, max } => SelectionFault::NumberOutOfBounds(
                part@,
                *num as nat,
                *max as nat,
            ),
        }
    }
}

pub open spec fn is_sep(c: char) -> bool {
    c == ',' || c == ' '
}

/// The pieces of `s` between commas and spaces, empty pieces included.
pub open spec fn fields(s: Seq<char>) -> Seq<Seq<char>>
    decreases s.len(),
{
    if s.len() == 0 {
        seq![Seq::empty()]
    } else {
        let f = fields(s.drop_last());
        if is_sep(s.last()) {
            f.push(Seq::empty())
        } else {
            f.update(f.len() - 1, f.last().push(s.last()))
        }
    }
}

pub open spec fn index_of(s: Seq<char>, c: char) -> int
    decreases s.len(),
{
    if s.len() == 0 {
        -1
    } else if s[0] == c {
        0
    } else {
        let r = index_of(s.drop_first(), c);
        if r < 0 {
            -1
        } else {
            r + 1
        }
    }
}

pub open spec fn is_digit(c: char) -> bool {
    '0' <= c && c <= '9'
}

pub open spec fn digits_value(s: Seq<char>) -> nat
    decreases s.len(),
{
    if s.len() == 0 {
        0
    } else {
        digits_value(s.drop_last()) * 10 + ((s.last() as int - 48) as nat)
    }
}

/// `s` without one leading `+`.
pub open spec fn unsigned_body(s: Seq<char>) -> Seq<char> {
    if s.len() > 0 && s[0] == '+' {
        s.drop_first()
    } else {
        s
    }
}

pub open spec fn all_digits(d: Seq<char>) -> bool {
    forall|i: int| 0 <= i < d.len() ==> is_digit(#[trigger] d[i])
}

/// The value of `s` read as `usize` text: an optional `+`, then one or more digits.
pub open spec fn parse_usize(s: Seq<char>) -> Option<nat> {
    let d = unsigned_body(s);
    if d.len() > 0 && all_digits(d) && digits_value(d) <= usize::MAX {
        Some(digits_value(d))
    } else {
        None
    }
}

pub open spec fn all_word() -> Seq<char> {
    seq!['a', 'l', 'l']
}

/// The indices `lo - 1 ..= hi - 1` of the one-based range `lo-hi`.
pub open spec fn range_set(lo: nat, hi: nat) -> Set<int> {
    Set::new(|i: int| lo <= i + 1 && i + 1 <= hi)
}

/// What one comma- or space-separated piece asks for.
pub open spec fn part_pick(field: Seq<char>, max: nat) -> Pick {
    let t = trim(field);
    let k = index_of(t, '-');
    if t.len() == 0 {
        Pick::Chosen(Set::empty())
    } else if eq_ignore_ascii_case(t, all_word()) {
        Pick::All
    } else if k >= 0 {
        let a = parse_usize(trim(t.subrange(0, k)));
        let b = parse_usize(trim(t.subrange(k + 1, t.len() as int)));
        if a is None || b is None {
            Pick::Fail(SelectionFault::BadRangeNumber(t, max))
        } else if a->0 == 0 || b->0 == 0 || a->0 > max || b->0 > max {
            Pick::Fail(SelectionFault::RangeOutOfBounds(t, max))
        } else {
            Pick::Chosen(range_set(a->0, b->0))
        }
    } else {
        match parse_usize(t) {
            None => Pick::Fail(SelectionFault::BadSelection(t, max)),
            Some(n) => if n == 0 || n > max {
                Pick::Fail(SelectionFault::NumberOutOfBounds(t, n, max))
            } else {
                Pick::Chosen(set![n - 1])
            },
        }
    }
}

/// Left to right: the first `All` or `Fail` decides; otherwise the union of the choices.
pub open spec fn combine(prev: Pick, next: Pick) -> Pick {
    match prev {
        Pick::Chosen(a) => match next {
            Pick::Chosen(b) => Pick::Chosen(a + b),
            _ => next,
        },
        _ => prev,
    }
}

pub open spec fn fold_picks(ps: Seq<Pick>) -> Pick
    decreases ps.len(),
{
    if ps.len() == 0 {
        Pick::Chosen(Set::empty())
    } else {
        combine(fold_picks(ps.drop_last()), ps.last())
    }
}

pub open spec fn field_picks(input: Seq<char>, max: nat) -> Seq<Pick> {
    fields(input).map_values(|f: Seq<char>| part_pick(f, max))
}

/// What one input string asks for.
pub open spec fn input_pick(input: Seq<char>, max: nat) -> Pick {
    if eq_ignore_ascii_case(input, all_word()) {
        Pick::All
    } else {
        fold_picks(field_picks(input, max))
    }
}

pub open spec fn input_picks(inputs: Seq<Seq<char>>, max: nat) -> Seq<Pick> {
    inputs.map_values(|s: Seq<char>| input_pick(s, max))
}

/// What a whole selection asks for.
pub open spec fn selection(inputs: Seq<Seq<char>>, max: nat) -> Pick {
    fold_picks(input_picks(inputs, max))
}

pub open spec fn strictly_ascending(v: Seq<usize>) -> bool {
    forall|i: int, j: int| 0 <= i < j < v.len() ==> v[i] < v[j]
}

/// The result that `parse_selections` owes for the outcome `p`.
pub open spec fn selection_result(p: Pick, max: nat, r: Result<Vec<usize>, SelectionError>) -> bool {
    match p {
        Pick::All => r is Ok && r->Ok_0@ == Seq::new(max, |i: int| i as usize),
        Pick::Fail(f) => r is Err && r->Err_0@ == f,
        Pick::Chosen(s) => {
            &&& r is Ok
            &&& strictly_ascending(r->Ok_0@)
            &&& forall|i: int| 0 <= i < r->Ok_0@.len() ==> s.contains(#[trigger] r->Ok_0@[i] as int)
            &&& forall|x: int|
                s.contains(x) ==> exists|i: int| 0 <= i < r->Ok_0@.len() && (#[trigger] r->Ok_0@[i]) as int == x
        },
    }
}

pub open spec fn views(inputs: Seq<String>) -> Seq<Seq<char>> {
    inputs.map_values(|s: String| s@)
}

/// The message of a rejected selection: it names the token as written and
/// the valid range.
pub open spec fn fault_message(f: SelectionFault) -> Seq<char> {
    match f {
        SelectionFault::BadRangeNumber(p, max) => "Invalid number in range: "@ + p + ". Choose 1-"@
            + decimal(max) + "."@,
        SelectionFault::RangeOutOfBounds(p, max) => "Invalid range: "@ + p + ". Choose 1-"@
            + decimal(max) + "."@,
        SelectionFault::BadSelection(p, max) => "Invalid selection: '"@ + p
            + "'. Use numbers, ranges (1-3), or 'all'. Choose 1-"@ + decimal(max) + "."@,
        SelectionFault::NumberOutOfBounds(p, n, max) => "Invalid number: "@ + p + ". Choose 1-"@
            + decimal(max) + "."@,
    }
}

impl SelectionError {
    /// The message shown to the user, naming the token and the valid range.
    pub fn message(&self) -> (r: String)
        ensures
            r@ == fault_message(self@),
    {
        let (mut s, part, max) = match self {
            SelectionError::BadRangeNumber { part, max } => (String::from_str("Invalid number in range: "), part, *max),
            SelectionError::RangeOutOfBounds { part, max } => (String::from_str("Invalid range: "), part, *max),
            SelectionError::BadSelection { part, max } => (String::from_str("Invalid selection: '"), part, *max),
            SelectionError::NumberOutOfBounds { part, max, .. } => (String::from_str("Invalid number: "), part, *max),
        };
        s.append(part.as_str());
        match self {
            SelectionError::BadSelection { .. } => s.append("'. Use numbers, ranges (1-3), or 'all'. Choose 1-"),
            _ => s.append(". Choose 1-"),
        }
        push_decimal(&mut s, max as u64);
        s.append(".");
        s
    }
}

proof fn lemma_fields_nonempty(s: Seq<char>)
    ensures
        fields(s).len() >= 1,
    decreases s.len(),
{
    if s.len() > 0 {
        lemma_fields_nonempty(s.drop_last());
    }
}

proof fn lemma_index_of(s: Seq<char>, c: char, k: int)
    requires
        0 <= k <= s.len(),
        forall|j: int| 0 <= j < k ==> #[trigger] s[j] != c,
        k == s.len() || s[k] == c,
    ensures
        index_of(s, c) == (if k == s.len() { -1 } else { k }),
    decreases k,
{
    if k > 0 {
        let t = s.drop_first();
        assert forall|j: int| 0 <= j < k - 1 implies #[trigger] t[j] != c by {
            assert(t[j] == s[j + 1]);
        }
        if k < s.len() {
            assert(t[k - 1] == s[k]);
        }
        lemma_index_of(t, c, k - 1);
    }
}

proof fn lemma_digits_prefix_le(s: Seq<char>, i: int)
    requires
        0 <= i <= s.len(),
    ensures
        digits_value(s.subrange(0, i)) <= digits_value(s),
    decreases s.len(),
{
    if i < s.len() {
        let t = s.drop_last();
        assert(t.subrange(0, i) == s.subrange(0, i));
        lemma_digits_prefix_le(t, i);
    } else {
        assert(s.subrange(0, i) == s);
    }
}

proof fn lemma_fold_sticky(ps: Seq<Pick>, j: int)
    requires
        0 <= j <= ps.len(),
        !(fold_picks(ps.subrange(0, j)) is Chosen),
    ensures
        fold_picks(ps) == fold_picks(ps.subrange(0, j)),
    decreases ps.len(),
{
    if j == ps.len() {
        assert(ps.subrange(0, j) == ps);
    } else {
        let t = ps.drop_last();
        assert(t.subrange(0, j) == ps.subrange(0, j));
        lemma_fold_sticky(t, j);
    }
}

proof fn lemma_fold_step(ps: Seq<Pick>, j: int)
    requires
        0 <= j < ps.len(),
    ensures
        fold_picks(ps.subrange(0, j + 1)) == combine(fold_picks(ps.subrange(0, j)), ps[j]),
{
    assert(ps.subrange(0, j + 1).drop_last() == ps.subrange(0, j));
}

/// Reads `v[a..b]` as `usize` text.
fn parse_number(v: &Vec<char>, a: usize, b: usize) -> (r: Option<usize>)
    requires
        a <= b <= v@.len(),
    ensures
        match parse_usize(v@.subrange(a as int, b as int)) {
            Some(n) => r == Some(n as usize),
            None => r is None,
        },
{
    let ghost s = v@.subrange(a as int, b as int);
    let ghost d0 = unsigned_body(s);
    assert(s.len() > 0 ==> s[0] == v@[a as int]);
    let mut i = a;
    if i < b && v[i] == '+' {
        i = i + 1;
        assert(s.drop_first() == v@.subrange(i as int, b as int));
    } else {
        assert(s == v@.subrange(i as int, b as int));
    }
    let ghost d = v@.subrange(i as int, b as int);
    assert(d == d0);
    if i == b {
        assert(d.len() == 0);
        return None;
    }
    let mut val: usize = 0;
    let mut k = i;
    assert(d.subrange(0, 0) =~= Seq::<char>::empty());
    while k < b
        invariant
            a <= i < b <= v@.len(),
            i <= k <= b,
            d == v@.subrange(i as int, b as int),
            d == d0,
            d0 == unsigned_body(s),
            s == v@.subrange(a as int, b as int),
            forall|j: int| 0 <= j < k - i ==> is_digit(#[trigger] d[j]),
            val as nat == digits_value(d.subrange(0, k - i)),
        decreases b - k,
    {
        let c = v[k];
        assert(d[k - i] == c);
        if !('0' <= c && c <= '9') {
            assert(!is_digit(d[k - i]));
            assert(!all_digits(d));
            return None;
        }
        let dgt = (c as u32 - 48) as usize;
        let ghost pre = d.subrange(0, k - i + 1);
        assert(pre.drop_last() == d.subrange(0, k - i));
        assert(digits_value(pre) == val * 10 + dgt);
        if val > (usize::MAX - dgt) / 10 {
            proof {
                assert(val * 10 + dgt > usize::MAX) by (nonlinear_arith)
                    requires
                        val > (usize::MAX - dgt) / 10,
                        dgt <= 9,
                ;
                if all_digits(d) {
                    lemma_digits_prefix_le(d, k - i + 1);
                }
            }
            return None;
        }
        assert(val * 10 + dgt <= usize::MAX) by (nonlinear_arith)
            requires
                val <= (usize::MAX - dgt) / 10,
                dgt <= 9,
        ;
        val = val * 10 + dgt;
        k = k + 1;
    }
    assert(d.subrange(0, d.len() as int) == d);
    Some(val)
}

pub open spec fn spans(v: Seq<char>, r: Seq<(usize, usize)>) -> Seq<Seq<char>> {
    Seq::new(r.len(), |i: int| v.subrange(r[i].0 as int, r[i].1 as int))
}

/// Bounds of the pieces of `v` between commas and spaces.
fn field_bounds(v: &Vec<char>) -> (r: Vec<(usize, usize)>)
    ensures
        forall|i: int| 0 <= i < r@.len() ==> r@[i].0 <= #[trigger] r@[i].1 <= v@.len(),
        spans(v@, r@) == fields(v@),
{
    let mut r: Vec<(usize, usize)> = Vec::new();
    let mut start: usize = 0;
    let mut k: usize = 0;
    assert(v@.subrange(0, 0) =~= Seq::<char>::empty());
    assert(spans(v@, r@).push(v@.subrange(0, 0)) =~~= fields(v@.subrange(0, 0)));
    while k < v.len()
        invariant
            start <= k <= v@.len(),
            forall|i: int| 0 <= i < r@.len() ==> r@[i].0 <= #[trigger] r@[i].1 <= v@.len(),
            spans(v@, r@).push(v@.subrange(start as int, k as int)) == fields(
                v@.subrange(0, k as int),
            ),
        decreases v@.len() - k,
    {
        let c = v[k];
        let ghost pre = v@.subrange(0, k + 1);
        assert(pre.drop_last() == v@.subrange(0, k as int));
        assert(pre.last() == c);
        if c == ',' || c == ' ' {
            r.push((start, k));
            start = k + 1;
            assert(v@.subrange(start as int, k + 1) =~= Seq::<char>::empty());
            assert(spans(v@, r@).push(v@.subrange(start as int, k + 1)) =~~= fields(pre));
        } else {
            assert(v@.subrange(start as int, k + 1) == v@.subrange(start as int, k as int).push(c));
            assert(spans(v@, r@).push(v@.subrange(start as int, k + 1)) =~~= fields(pre));
        }
        k = k + 1;
    }
    r.push((start, k));
    assert(v@.subrange(0, k as int) == v@);
    assert(spans(v@, r@) =~~= fields(v@));
    r
}

enum Step {
    Chosen,
    All,
    Fail(SelectionError),
}

/// Marks `marks[lo - 1 .. hi]`.
fn mark_range(marks: &mut Vec<bool>, lo: usize, hi: usize)
    requires
        1 <= lo,
        hi <= old(marks)@.len(),
    ensures
        final(marks)@.len() == old(marks)@.len(),
        forall|i: int|
            0 <= i < old(marks)@.len() ==> (final(marks)@[i] <==> (old(marks)@[i] || range_set(
                lo as nat,
                hi as nat,
            ).contains(i))),
{
    let mut j = lo - 1;
    while j < hi
        invariant
            lo - 1 <= j,
            j <= hi || j == lo - 1,
            hi <= marks@.len(),
            marks@.len() == old(marks)@.len(),
            forall|i: int|
                0 <= i < old(marks)@.len() ==> (marks@[i] <==> (old(marks)@[i] || (lo <= i + 1
                    && i < j))),
        decreases hi - j,
    {
        marks.set(j, true);
        j = j + 1;
    }
}

/// Applies one piece `v[fa..fb]` of a selection to `marks`.
fn pick_part(v: &Vec<char>, fa: usize, fb: usize, max: usize, marks: &mut Vec<bool>) -> (r: Step)
    requires
        fa <= fb <= v@.len(),
        old(marks)@.len() == max,
    ensures
        final(marks)@.len() == max,
        match part_pick(v@.subrange(fa as int, fb as int), max as nat) {
            Pick::Chosen(t) => r is Chosen && (forall|i: int| #[trigger] t.contains(i) ==> 0 <= i
                < max) && forall|i: int|
                0 <= i < max ==> (#[trigger] final(marks)@[i] <==> (old(marks)@[i] || t.contains(i))),
            Pick::All => r is All,
            Pick::Fail(f) => r matches Step::Fail(e) && e@ == f,
        },
{
    let ghost field = v@.subrange(fa as int, fb as int);
    let (ta, tb) = trim_bounds(v, fa, fb);
    let ghost t = v@.subrange(ta as int, tb as int);
    if ta == tb {
        return Step::Chosen;
    }
    let all = vec!['a', 'l', 'l'];
    assert(all@ == all_word());
    if range_eq_ignore_ascii_case(v, ta, tb, &all) {
        return Step::All;
    }
    let mut k = ta;
    while k < tb && v[k] != '-'
        invariant
            ta <= k <= tb <= v@.len(),
            forall|j: int| ta <= j < k ==> #[trigger] v@[j] != '-',
        decreases tb - k,
    {
        k = k + 1;
    }
    proof {
        assert forall|j: int| 0 <= j < k - ta implies #[trigger] t[j] != '-' by {
            assert(t[j] == v@[j + ta]);
        }
        if k < tb {
            assert(t[k - ta] == v@[k as int]);
        }
        lemma_index_of(t, '-', k - ta);
    }
    if k < tb {
        assert(t.subrange(0, k - ta) == v@.subrange(ta as int, k as int));
        assert(t.subrange(k - ta + 1, t.len() as int) == v@.subrange(k + 1, tb as int));
        let (a1, a2) = trim_bounds(v, ta, k);
        let (b1, b2) = trim_bounds(v, k + 1, tb);
        let x = parse_number(v, a1, a2);
        let y = parse_number(v, b1, b2);
        match (x, y) {
            (Some(x), Some(y)) => {
                if x == 0 || y == 0 || x > max || y > max {
                    return Step::Fail(
                        SelectionError::RangeOutOfBounds { part: string_of_range(v, ta, tb), max },
                    );
                }
                mark_range(marks, x, y);
                return Step::Chosen;
            },
            _ => {
                return Step::Fail(
                    SelectionError::BadRangeNumber { part: string_of_range(v, ta, tb), max },
                );
            },
        }
    } else {
        match parse_number(v, ta, tb) {
            None => {
                return Step::Fail(SelectionError::BadSelection { part: string_of_range(v, ta, tb), max });
            },
            Some(n) => {
                if n == 0 || n > max {
                    return Step::Fail(
                        SelectionError::NumberOutOfBounds { part: string_of_range(v, ta, tb), num: n, max },
                    );
                }
                marks.set(n - 1, true);
                assert(set![n - 1].contains(n - 1));
                return Step::Chosen;
            },
        }
    }
}

fn all_indices(max: usize) -> (r: Vec<usize>)
    ensures
        r@ == Seq::new(max as nat, |i: int| i as usize),
{
    let mut r: Vec<usize> = Vec::new();
    let mut k: usize = 0;
    while k < max
        invariant
            k <= max,
            r@ == Seq::new(k as nat, |i: int| i as usize),
        decreases max - k,
    {
        r.push(k);
        k = k + 1;
    }
    r
}

/// Parses selection tokens against `max` suggestions into zero-based indices.
///
/// Each input is split at commas and spaces; each piece is trimmed and is
/// empty (ignored), `all` in any case, a one-based number, or a one-based
/// range `a-b`. Numbers outside `1..=max` are rejected, never clamped. The
/// first `all` or the first rejected piece, reading left to right, decides;
/// otherwise the result is ascending and free of repeats.
pub fn parse_selections(inputs: &[String], max: usize) -> (r: Result<Vec<usize>, SelectionError>)
    ensures
        selection_result(selection(views(inputs@), max as nat), max as nat, r),
{
    let ghost picks = input_picks(views(inputs@), max as nat);
    let mut marks: Vec<bool> = Vec::new();
    while marks.len() < max
        invariant
            marks@.len() <= max,
            forall|x: int| 0 <= x < marks@.len() ==> !marks@[x],
        decreases max - marks@.len(),
    {
        marks.push(false);
    }
    let all = vec!['a', 'l', 'l'];
    assert(all@ == all_word());
    let mut i: usize = 0;
    assert(picks.subrange(0, 0) =~= Seq::<Pick>::empty());
    while i < inputs.len()
        invariant
            i <= inputs@.len(),
            marks@.len() == max,
            picks == input_picks(views(inputs@), max as nat),
            all@ == all_word(),
            fold_picks(picks.subrange(0, i as int)) is Chosen,
            forall|x: int|
                0 <= x < max ==> (marks@[x] <==> fold_picks(picks.subrange(0, i as int))->Chosen_0.contains(x)),
            forall|x: int|
                #[trigger] fold_picks(picks.subrange(0, i as int))->Chosen_0.contains(x) ==> 0 <= x < max,
        decreases inputs@.len() - i,
    {
        let ghost before = fold_picks(picks.subrange(0, i as int))->Chosen_0;
        let ghost marks_before = marks@;
        proof {
            lemma_fold_step(picks, i as int);
        }
        assert(picks[i as int] == input_pick(inputs@[i as int]@, max as nat));
        let v = chars_of(inputs[i].as_str());
        if range_eq_ignore_ascii_case(&v, 0, v.len(), &all) {
            assert(v@.subrange(0, v@.len() as int) == v@);
            proof {
                lemma_fold_sticky(picks, i + 1);
            }
            return Ok(all_indices(max));
        }
        assert(v@.subrange(0, v@.len() as int) == v@);
        assert(!eq_ignore_ascii_case(v@, all_word()));
        assert(views(inputs@)[i as int] == v@);
        let bounds = field_bounds(&v);
        let ghost fp = field_picks(v@, max as nat);
        assert(fp.len() == bounds@.len());
        let mut j: usize = 0;
        assert(fp.subrange(0, 0) =~= Seq::<Pick>::empty());
        while j < bounds.len()
            invariant
                i < inputs@.len(),
                j <= bounds@.len(),
                marks@.len() == max,
                fp == field_picks(v@, max as nat),
                fp.len() == bounds@.len(),
                spans(v@, bounds@) == fields(v@),
                forall|q: int| 0 <= q < bounds@.len() ==> bounds@[q].0 <= #[trigger] bounds@[q].1 <= v@.len(),
                picks == input_picks(views(inputs@), max as nat),
                picks[i as int] == fold_picks(fp),
                fold_picks(picks.subrange(0, i + 1)) == combine(Pick::Chosen(before), picks[i as int]),
                marks_before.len() == max,
                forall|x: int| 0 <= x < max ==> (marks_before[x] <==> before.contains(x)),
                forall|x: int| #[trigger] before.contains(x) ==> 0 <= x < max,
                fold_picks(fp.subrange(0, j as int)) is Chosen,
                forall|x: int|
                    0 <= x < max ==> (marks@[x] <==> (marks_before[x] || fold_picks(
                        fp.subrange(0, j as int),
                    )->Chosen_0.contains(x))),
                forall|x: int|
                    #[trigger] fold_picks(fp.subrange(0, j as int))->Chosen_0.contains(x) ==> 0 <= x < max,
            decreases bounds@.len() - j,
        {
            let (fa, fb) = bounds[j];
            proof {
                lemma_fold_step(fp, j as int);
                assert(fields(v@)[j as int] == v@.subrange(fa as int, fb as int));
                assert(fp[j as int] == part_pick(v@.subrange(fa as int, fb as int), max as nat));
            }
            let ghost marks_mid = marks@;
            let step = pick_part(&v, fa, fb, max, &mut marks);
            match step {
                Step::Chosen => {
                    proof {
                        let pp = part_pick(v@.subrange(fa as int, fb as int), max as nat);
                        assert(pp is Chosen);
                        let a = fold_picks(fp.subrange(0, j as int))->Chosen_0;
                        let t = pp->Chosen_0;
                        assert(fp[j as int] == pp);
                        assert(fold_picks(fp.subrange(0, j + 1)) == Pick::Chosen(a + t));
                        assert forall|x: int| 0 <= x < max implies (marks@[x] <==> (marks_before[x]
                            || #[trigger] (a + t).contains(x))) by {
                            assert(marks@[x] == (marks_mid[x] || t.contains(x)));
                            assert(marks_mid[x] == (marks_before[x] || a.contains(x)));
                            if a.contains(x) {
                            } else if t.contains(x) {
                            }
                        }
                        assert forall|x: int| #[trigger] (a + t).contains(x) implies 0 <= x < max by {
                            if a.contains(x) {
                            } else {
                                assert(t.contains(x));
                            }
                        }
                    }
                },
                Step::All => {
                    proof {
                        lemma_fold_sticky(fp, j + 1);
                        lemma_fold_sticky(picks, i + 1);
                    }
                    return Ok(all_indices(max));
                },
                Step::Fail(e) => {
                    proof {
                        lemma_fold_sticky(fp, j + 1);
                        lemma_fold_sticky(picks, i + 1);
                    }
                    return Err(e);
                },
            }
            j = j + 1;
        }
        assert(fp.subrange(0, j as int) == fp);
        proof {
            let t = fold_picks(fp)->Chosen_0;
            assert(fold_picks(picks.subrange(0, i + 1)) == Pick::Chosen(before + t));
            assert forall|x: int| 0 <= x < max implies (marks@[x] <==> #[trigger] (before + t).contains(
                x,
            )) by {
                assert(marks_before[x] == before.contains(x));
            }
            assert forall|x: int| #[trigger] (before + t).contains(x) implies 0 <= x < max by {
                if before.contains(x) {
                } else {
                    assert(t.contains(x));
                }
            }
        }
        i = i + 1;
    }
    assert(picks.subrange(0, i as int) == picks);
    let ghost chosen = fold_picks(picks)->Chosen_0;
    let mut out: Vec<usize> = Vec::new();
    let mut k: usize = 0;
    while k < max
        invariant
            k <= max,
            marks@.len() == max,
            strictly_ascending(out@),
            forall|q: int|
                0 <= q < out@.len() ==> #[trigger] out@[q] < k && chosen.contains(out@[q] as int),
            forall|x: int| 0 <= x < max ==> (marks@[x] <==> chosen.contains(x)),
            forall|x: int| #[trigger] chosen.contains(x) ==> 0 <= x < max,
            forall|x: int| 0 <= x < k && #[trigger] chosen.contains(x) ==> out@.contains(x as usize),
        decreases max - k,
    {
        if marks[k] {
            let ghost old_out = out@;
            out.push(k);
            assert forall|x: int| 0 <= x < k + 1 && #[trigger] chosen.contains(x) implies out@.contains(
                x as usize,
            ) by {
                if x < k {
                    let q = choose|q: int| 0 <= q < old_out.len() && old_out[q] == x as usize;
                    assert(out@[q] == x as usize);
                } else {
                    assert(out@[old_out.len() as int] == x as usize);
                }
            }
        }
        k = k + 1;
    }
    assert forall|x: int| chosen.contains(x) implies exists|q: int|
        0 <= q < out@.len() && (#[trigger] out@[q]) as int == x by {
        assert(out@.contains(x as usize));
        let q = choose|q: int| 0 <= q < out@.len() && out@[q] == x as usize;
        assert(out@[q] as int == x);
    }
    assert(selection(views(inputs@), max as nat) == Pick::Chosen(chosen));
    assert(strictly_ascending(out@));
    assert(forall|i: int| 0 <= i < out@.len() ==> chosen.contains(#[trigger] out@[i] as int));
    let r: Result<Vec<usize>, SelectionError> = Ok(out);
    assert(r->Ok_0@ == out@);
    assert(forall|x: int| chosen.contains(x) ==> exists|i: int| 0 <= i < r->Ok_0@.len() && (#[trigger] r->Ok_0@[i]) as int == x);
    assert(selection_result(Pick::Chosen(chosen), max as nat, r));
    r
}

pub open spec fn union_of(ps: Seq<Pick>) -> Set<int> {
    Set::new(|x: int| exists|k: int| 0 <= k < ps.len() && (#[trigger] ps[k]) is Chosen && ps[k]->Chosen_0.contains(x))
}

proof fn lemma_fold_chosen(ps: Seq<Pick>)
    requires
        fold_picks(ps) is Chosen,
    ensures
        forall|k: int| 0 <= k < ps.len() ==> (#[trigger] ps[k]) is Chosen,
        fold_picks(ps)->Chosen_0 == union_of(ps),
    decreases ps.len(),
{
    if ps.len() > 0 {
        let t = ps.drop_last();
        let last = ps.last();
        assert(fold_picks(t) is Chosen);
        lemma_fold_chosen(t);
        let u = fold_picks(t)->Chosen_0;
        let w = last->Chosen_0;
        assert(fold_picks(ps)->Chosen_0 == u + w);
        assert forall|k: int| 0 <= k < ps.len() implies (#[trigger] ps[k]) is Chosen by {
            if k < t.len() {
                assert(t[k] == ps[k]);
            }
        }
        assert forall|x: int| union_of(ps).contains(x) <==> #[trigger] (u + w).contains(x) by {
            if union_of(ps).contains(x) {
                let k = choose|k: int|
                    0 <= k < ps.len() && (#[trigger] ps[k]) is Chosen && ps[k]->Chosen_0.contains(x);
                if k < t.len() {
                    assert(t[k] == ps[k]);
                    assert(union_of(t).contains(x));
                }
            }
            if u.contains(x) {
                let k = choose|k: int|
                    0 <= k < t.len() && (#[trigger] t[k]) is Chosen && t[k]->Chosen_0.contains(x);
                assert(ps[k] == t[k]);
            }
            if w.contains(x) {
                assert(ps[ps.len() - 1] == last);
            }
        }
        assert(union_of(ps) =~= u + w);
    } else {
        assert(union_of(ps) =~= Set::empty());
    }
}

proof fn lemma_fold_all(ps: Seq<Pick>)
    requires
        fold_picks(ps) is All,
    ensures
        exists|k: int| 0 <= k < ps.len() && (#[trigger] ps[k]) is All,
    decreases ps.len(),
{
    let t = ps.drop_last();
    if fold_picks(t) is All {
        lemma_fold_all(t);
        let k = choose|k: int| 0 <= k < t.len() && (#[trigger] t[k]) is All;
        assert(ps[k] == t[k]);
    } else {
        assert(ps[ps.len() - 1] is All);
    }
}

proof fn lemma_fold_same_members(pa: Seq<Pick>, pb: Seq<Pick>)
    requires
        forall|k: int| 0 <= k < pa.len() ==> pb.contains(#[trigger] pa[k]),
        forall|k: int| 0 <= k < pb.len() ==> pa.contains(#[trigger] pb[k]),
        !(fold_picks(pa) is Fail),
        !(fold_picks(pb) is Fail),
    ensures
        fold_picks(pa) == fold_picks(pb),
{
    if fold_picks(pa) is All {
        lemma_fold_all(pa);
        let k = choose|k: int| 0 <= k < pa.len() && (#[trigger] pa[k]) is All;
        assert(pb.contains(pa[k]));
        if fold_picks(pb) is Chosen {
            lemma_fold_chosen(pb);
        }
    } else {
        lemma_fold_chosen(pa);
        if fold_picks(pb) is All {
            lemma_fold_all(pb);
            let m = choose|m: int| 0 <= m < pb.len() && (#[trigger] pb[m]) is All;
            assert(pa.contains(pb[m]));
        }
        lemma_fold_chosen(pb);
        assert forall|x: int| #[trigger] union_of(pa).contains(x) == union_of(pb).contains(x) by {
            if union_of(pa).contains(x) {
                let k = choose|k: int|
                    0 <= k < pa.len() && (#[trigger] pa[k]) is Chosen && pa[k]->Chosen_0.contains(x);
                assert(pb.contains(pa[k]));
                let m = choose|m: int| 0 <= m < pb.len() && pb[m] == pa[k];
                assert(pb[m] is Chosen && pb[m]->Chosen_0.contains(x));
            }
            if union_of(pb).contains(x) {
                let m = choose|m: int|
                    0 <= m < pb.len() && (#[trigger] pb[m]) is Chosen && pb[m]->Chosen_0.contains(x);
                assert(pa.contains(pb[m]));
                let k = choose|k: int| 0 <= k < pa.len() && pa[k] == pb[m];
                assert(pa[k] is Chosen && pa[k]->Chosen_0.contains(x));
            }
        }
        assert(union_of(pa) == union_of(pb));
    }
}

/// Reordering or repeating the inputs of a selection does not change what it
/// asks for: two selections made of the same inputs, neither of them
/// rejected, pick the same indices (or both pick all of them).
pub proof fn lemma_selection_order_free(a: Seq<Seq<char>>, b: Seq<Seq<char>>, max: nat)
    requires
        forall|k: int| 0 <= k < a.len() ==> b.contains(#[trigger] a[k]),
        forall|k: int| 0 <= k < b.len() ==> a.contains(#[trigger] b[k]),
        !(selection(a, max) is Fail),
        !(selection(b, max) is Fail),
    ensures
        selection(a, max) == selection(b, max),
{
    let pa = input_picks(a, max);
    let pb = input_picks(b, max);
    assert forall|k: int| 0 <= k < pa.len() implies pb.contains(#[trigger] pa[k]) by {
        let m = choose|m: int| 0 <= m < b.len() && b[m] == a[k];
        assert(pb[m] == pa[k]);
    }
    assert forall|m: int| 0 <= m < pb.len() implies pa.contains(#[trigger] pb[m]) by {
        let k = choose|k: int| 0 <= k < a.len() && a[k] == b[m];
        assert(pb[m] == pa[k]);
    }
    lemma_fold_same_members(pa, pb);
}

} // verus!
