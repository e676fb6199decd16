use vstd::prelude::*;

use crate::text::{trim, trimmed};

verus! {

/// Where the first `c` of `s` stands, or the length of `s` where there is none.
pub open spec fn cut(s: Seq<char>, c: char) -> int {
    match s.index_of_first(c) {
        Some(i) => i,
        None => s.len() as int,
    }
}

/// The text before the first `c` (all of it where there is none).
pub open spec fn before(s: Seq<char>, c: char) -> Seq<char> {
    s.take(cut(s, c))
}

/// The text after the first `c`.
pub open spec fn after(s: Seq<char>, c: char) -> Seq<char> {
    s.skip(cut(s, c) + 1)
}

/// The pieces of `s` between its spaces, empty pieces included.
pub open spec fn tokens(s: Seq<char>) -> Seq<Seq<char>>
    decreases s.len(),
    via tokens_decreases
{
    if s.contains(' ') {
        seq![before(s, ' ')] + tokens(after(s, ' '))
    } else {
        seq![s]
    }
}

#[via_fn]
proof fn tokens_decreases(s: Seq<char>) {
    s.index_of_first_ensures(' ');
}

pub open spec fn is_digit(c: char) -> bool {
    48 <= (c as u32) <= 57
}

pub open spec fn digits_value(d: Seq<char>) -> nat
    decreases d.len(),
{
    if d.len() == 0 {
        0
    } else {
        digits_value(d.drop_last()) * 10 + ((d.last() as u32) - 48) as nat
    }
}

/// The digits of a number, without the `+` that may lead them.
pub open spec fn unsigned_digits(s: Seq<char>) -> Seq<char> {
    if s.len() > 0 && s[0] == '+' {
        s.drop_first()
    } else {
        s
    }
}

/// The number that `s` writes in decimal, with an optional leading `+`, where it fits in a
/// `usize`.
pub open spec fn parse_usize(s: Seq<char>) -> Option<usize> {
    let d = unsigned_digits(s);
    if d.len() > 0 && (forall|i: int| 0 <= i < d.len() ==> is_digit(#[trigger] d[i]))
        && digits_value(d) <= usize::MAX {
        Some(digits_value(d) as usize)
    } else {
        None
    }
}

/// The numbers from `a` to `b`, both included.
pub open spec fn span(a: usize, b: usize) -> Seq<usize> {
    Seq::new(if a <= b { (b - a + 1) as nat } else { 0 }, |i: int| (a + i) as usize)
}

/// The indices that one piece of a selection names: a range `a-b`, or a single index.
pub open spec fn piece_values(p: Seq<char>) -> Seq<usize> {
    if p.contains('-') {
        match (parse_usize(before(p, '-')), parse_usize(before(after(p, '-'), '-'))) {
            (Some(a), Some(b)) => span(a, b),
            _ => Seq::empty(),
        }
    } else {
        match parse_usize(p) {
            Some(a) => seq![a],
            None => Seq::empty(),
        }
    }
}

pub open spec fn values_of(ts: Seq<Seq<char>>) -> Seq<usize>
    decreases ts.len(),
{
    if ts.len() == 0 {
        Seq::empty()
    } else {
        piece_values(ts[0]) + values_of(ts.drop_first())
    }
}

/// `s` with every repeated value left out, in the order of first occurrence.
pub open spec fn dedup(s: Seq<usize>) -> Seq<usize>
    decreases s.len(),
{
    if s.len() == 0 {
        s
    } else if dedup(s.drop_last()).contains(s.last()) {
        dedup(s.drop_last())
    } else {
        dedup(s.drop_last()).push(s.last())
    }
}

/// The indices that a selection names, each once, in the order of first mention; `None`
/// where it names none.
pub open spec fn selection(s: Seq<char>) -> Option<Seq<usize>> {
    let v = dedup(values_of(tokens(s)));
    if v.len() == 0 {
        None
    } else {
        Some(v)
    }
}

proof fn lemma_cut(s: Seq<char>, c: char, k: int)
    requires
        0 <= k <= s.len(),
        k < s.len() ==> s[k] == c,
        forall|j: int| 0 <= j < k ==> s[j] != c,
    ensures
        cut(s, c) == k,
        s.contains(c) <==> k < s.len(),
{
    s.index_of_first_ensures(c);
    if k < s.len() {
        assert(s.contains(c));
    }
}

proof fn lemma_value_grows(d: Seq<char>, k: int)
    requires
        0 <= k <= d.len(),
        forall|i: int| 0 <= i < d.len() ==> is_digit(#[trigger] d[i]),
    ensures
        digits_value(d) >= digits_value(d.take(k)),
    decreases d.len(),
{
    if k < d.len() {
        assert(d.drop_last().take(k) =~= d.take(k));
        lemma_value_grows(d.drop_last(), k);
    } else {
        assert(d.take(k) =~= d);
    }
}

pub(crate) fn chars_of(s: &str) -> (r: Vec<char>)
    ensures
        r@ == s@,
{
    let n = s.unicode_len();
    let mut r: Vec<char> = Vec::new();
    let mut i: usize = 0;
    while i < n
        invariant
            n == s@.len(),
            i <= n,
            r@ == s@.take(i as int),
        decreases n - i,
    {
        r.push(s.get_char(i));
        assert(s@.take(i + 1) =~= s@.take(i as int).push(s@[i as int]));
        i = i + 1;
    }
    assert(s@.take(n as int) =~= s@);
    r
}

/// Where the first `c` of `chars[from..to]` stands, or `to`.
fn find_char(chars: &Vec<char>, from: usize, to: usize, c: char) -> (k: usize)
    requires
        from <= to <= chars@.len(),
    ensures
        from <= k <= to,
        k - from == cut(chars@.subrange(from as int, to as int), c),
        chars@.subrange(from as int, to as int).contains(c) <==> k < to,
{
    let ghost s = chars@.subrange(from as int, to as int);
    let mut k: usize = from;
    while k < to
        invariant
            from <= k <= to <= chars@.len(),
            s == chars@.subrange(from as int, to as int),
            forall|j: int| 0 <= j < k - from ==> s[j] != c,
        decreases to - k,
    {
        if chars[k] == c {
            proof {
                lemma_cut(s, c, k - from);
            }
            return k;
        }
        k = k + 1;
    }
    proof {
        lemma_cut(s, c, k - from);
    }
    k
}

/// The number that `chars[from..to]` writes, as `str::parse::<usize>` reads it.
fn parse_span(chars: &Vec<char>, from: usize, to: usize) -> (r: Option<usize>)
    requires
        from <= to <= chars@.len(),
    ensures
        r == parse_usize(chars@.subrange(from as int, to as int)),
{
    let ghost s = chars@.subrange(from as int, to as int);
    let mut i: usize = from;
    if i < to && chars[i] == '+' {
        i = i + 1;
    }
    let start = i;
    let ghost d = chars@.subrange(start as int, to as int);
    assert(unsigned_digits(s) =~= d);
    if start == to {
        return None;
    }
    let mut v: usize = 0;
    while i < to
        invariant
            from <= start <= i <= to <= chars@.len(),
            d == chars@.subrange(start as int, to as int),
            d == unsigned_digits(s),
            s == chars@.subrange(from as int, to as int),
            forall|j: int| 0 <= j < i - start ==> is_digit(#[trigger] d[j]),
            v as nat == digits_value(d.take(i - start)),
        decreases to - i,
    {
        let c = chars[i];
        let ghost k = i - start;
        assert(d[k] == c);
        let code = c as u32;
        if !(48 <= code && code <= 57) {
            assert(!is_digit(d[k]));
            return None;
        }
        let dv: usize = (code - 48) as usize;
        assert(d.take(k + 1).drop_last() =~= d.take(k));
        assert(digits_value(d.take(k + 1)) == digits_value(d.take(k)) * 10 + dv);
        if v > (usize::MAX - dv) / 10 {
            assert(v * 10 + dv > usize::MAX) by (nonlinear_arith)
                requires
                    v > (usize::MAX - dv) / 10,
                    dv <= 9,
            ;
            proof {
                if forall|j: int| 0 <= j < d.len() ==> is_digit(#[trigger] d[j]) {
                    lemma_value_grows(d, k + 1);
                }
            }
            return None;
        }
        assert(v * 10 + dv <= usize::MAX) by (nonlinear_arith)
            requires
                v <= (usize::MAX - dv) / 10,
                dv <= 9,
        ;
        v = v * 10 + dv;
        i = i + 1;
    }
    assert(d.take(i - start) =~= d);
    Some(v)
}

/// Adds `v` at the end of `out` unless it is there already.
fn add_unique(out: &mut Vec<usize>, v: usize, Ghost(done): Ghost<Seq<usize>>)
    requires
        old(out)@ == dedup(done),
    ensures
        final(out)@ == dedup(done.push(v)),
{
    assert(done.push(v).drop_last() =~= done);
    let mut i: usize = 0;
    while i < out.len()
        invariant
            i <= out@.len(),
            out@ == dedup(done),
            forall|j: int| 0 <= j < i ==> out@[j] != v,
        decreases out@.len() - i,
    {
        if out[i] == v {
            assert(out@[i as int] == v);
            assert(out@.contains(v));
            assert(done.push(v).drop_last() =~= done);
            assert(done.push(v).last() == v);
            return;
        }
        i = i + 1;
    }
    assert(!dedup(done).contains(v));
    assert(done.push(v).last() == v);
    out.push(v);
}

/// Adds the numbers from `a` to `b` that `out` does not hold yet.
fn add_span(out: &mut Vec<usize>, a: usize, b: usize, Ghost(done): Ghost<Seq<usize>>)
    requires
        old(out)@ == dedup(done),
    ensures
        final(out)@ == dedup(done + span(a, b)),
{
    if a > b {
        assert(done + span(a, b) =~= done);
        return;
    }
    let mut v: usize = a;
    assert(done + span(a, b).take(0) =~= done);
    loop
        invariant
            a <= v <= b,
            out@ == dedup(done + span(a, b).take(v - a)),
        decreases b - v,
    {
        assert(done + span(a, b).take(v - a + 1) =~= (done + span(a, b).take(v - a)).push(v));
        add_unique(out, v, Ghost(done + span(a, b).take(v - a)));
        if v == b {
            assert(span(a, b).take(v - a + 1) =~= span(a, b));
            return;
        }
        v = v + 1;
    }
}

/// Adds the indices that the piece `chars[from..to]` names.
fn add_piece(
    chars: &Vec<char>,
    from: usize,
    to: usize,
    out: &mut Vec<usize>,
    Ghost(done): Ghost<Seq<usize>>,
)
    requires
        from <= to <= chars@.len(),
        old(out)@ == dedup(done),
    ensures
        final(out)@ == dedup(done + piece_values(chars@.subrange(from as int, to as int))),
{
    let ghost p = chars@.subrange(from as int, to as int);
    let dash = find_char(chars, from, to, '-');
    if dash < to {
        let end = find_char(chars, dash + 1, to, '-');
        assert(before(p, '-') =~= chars@.subrange(from as int, dash as int));
        assert(after(p, '-') =~= chars@.subrange(dash + 1, to as int));
        assert(before(after(p, '-'), '-') =~= chars@.subrange(dash + 1, end as int));
        let lo = parse_span(chars, from, dash);
        let hi = parse_span(chars, dash + 1, end);
        match (lo, hi) {
            (Some(a), Some(b)) => add_span(out, a, b, Ghost(done)),
            _ => {
                assert(done + piece_values(p) =~= done);
            },
        }
    } else {
        match parse_span(chars, from, to) {
            Some(a) => {
                assert(done + piece_values(p) =~= done.push(a));
                add_unique(out, a, Ghost(done));
            },
            None => {
                assert(done + piece_values(p) =~= done);
            },
        }
    }
}

/// The indices that a selection names: pieces separated by spaces, each a single index or
/// an inclusive range `a-b`; pieces that are neither are passed over. Each index comes once,
/// in the order of first mention, and `None` stands for a selection that names none.
pub fn parse_selection(text: &str) -> (r: Option<Vec<usize>>)
    ensures
        r is None <==> selection(text@) is None,
        r matches Some(v) ==> selection(text@) == Some(v@),
{
    let chars = chars_of(text);
    let n = chars.len();
    let mut out: Vec<usize> = Vec::new();
    let mut start: usize = 0;
    let ghost mut done: Seq<usize> = Seq::empty();
    assert(chars@.skip(0) =~= chars@);
    assert(done + values_of(tokens(chars@)) =~= values_of(tokens(chars@)));
    loop
        invariant_except_break
            start <= n,
            done + values_of(tokens(chars@.skip(start as int))) == values_of(tokens(chars@)),
        invariant
            n == chars@.len(),
            out@ == dedup(done),
        ensures
            done == values_of(tokens(chars@)),
        decreases n - start,
    {
        let ghost rest = chars@.skip(start as int);
        let end = find_char(&chars, start, n, ' ');
        assert(chars@.subrange(start as int, n as int) =~= rest);
        let ghost piece = chars@.subrange(start as int, end as int);
        add_piece(&chars, start, end, &mut out, Ghost(done));
        if end == n {
            assert(tokens(rest) == seq![rest]);
            assert(piece =~= rest);
            assert(seq![rest].drop_first() =~= Seq::<Seq<char>>::empty());
            assert(values_of(Seq::<Seq<char>>::empty()) =~= Seq::<usize>::empty());
            assert(values_of(seq![rest]) =~= piece_values(rest));
            proof {
                done = done + piece_values(piece);
            }
            break;
        }
        assert(before(rest, ' ') =~= piece);
        assert(after(rest, ' ') =~= chars@.skip(end + 1));
        assert((seq![piece] + tokens(chars@.skip(end + 1))).drop_first() =~= tokens(
            chars@.skip(end + 1),
        ));
        assert(values_of(tokens(rest)) == piece_values(piece) + values_of(
            tokens(chars@.skip(end + 1)),
        ));
        assert(done + piece_values(piece) + values_of(tokens(chars@.skip(end + 1))) =~= done
            + values_of(tokens(rest)));
        proof {
            done = done + piece_values(piece);
        }
        start = end + 1;
    }
    if out.len() == 0 {
        None
    } else {
        Some(out)
    }
}

/// The indices that a line of input names, read as `parse_selection` reads it once the
/// whitespace around the line is trimmed.
pub fn parse_input(input: &str) -> (r: Option<Vec<usize>>)
    ensures
        r is None <==> selection(trimmed(input@)) is None,
        r matches Some(v) ==> selection(trimmed(input@)) == Some(v@),
{
    parse_selection(trim(input))
}

/// The positions, from 0, among the first `count` items of a list, whose index from 1 the
/// selection names, in list order.
pub open spec fn positions_named(count: nat, chosen: Seq<usize>) -> Seq<usize>
    decreases count,
{
    if count == 0 {
        Seq::empty()
    } else if chosen.contains(count as usize) {
        positions_named((count - 1) as nat, chosen).push((count - 1) as usize)
    } else {
        positions_named((count - 1) as nat, chosen)
    }
}

/// The positions of a list of `count` items that a selection names, in list order; `None`
/// where the selection names an index past the end of the list.
pub fn chosen_positions(count: usize, chosen: &Vec<usize>) -> (r: Option<Vec<usize>>)
    ensures
        r is None <==> exists|k: int| 0 <= k < chosen@.len() && chosen@[k] > count,
        r matches Some(v) ==> v@ == positions_named(count as nat, chosen@),
{
    let mut k: usize = 0;
    while k < chosen.len()
        invariant
            k <= chosen@.len(),
            forall|q: int| 0 <= q < k ==> chosen@[q] <= count,
        decreases chosen@.len() - k,
    {
        if chosen[k] > count {
            return None;
        }
        k = k + 1;
    }
    let mut r: Vec<usize> = Vec::new();
    let mut i: usize = 0;
    while i < count
        invariant
            i <= count,
            r@ == positions_named(i as nat, chosen@),
        decreases count - i,
    {
        let mut named = false;
        let mut q: usize = 0;
        while q < chosen.len()
            invariant
                i < count,
                q <= chosen@.len(),
                named == exists|t: int| 0 <= t < q && chosen@[t] == i + 1,
            decreases chosen@.len() - q,
        {
            if chosen[q] == i + 1 {
                named = true;
            }
            q = q + 1;
        }
        assert(named == chosen@.contains((i + 1) as usize));
        if named {
            r.push(i);
        }
        i = i + 1;
    }
    Some(r)
}

} // verus!
