//! Justifying an output line: the room left on a filled line is shared
//! out over the stretchable gaps between its words.
use vstd::prelude::*;
use crate::groff::render::{Word, WordView, words_view};

verus! {

/// The columns of a line: the widths and the gaps before its words.
pub open spec fn line_total(ws: Seq<WordView>) -> int
    decreases ws.len(),
{
    if ws.len() == 0 {
        0
    } else {
        line_total(ws.drop_last()) + ws.last().width + ws.last().gap
    }
}

/// Whether the gap before word `i` may stretch: it is not the first
/// word, it and the word before it are adjustable, and the gap is not
/// closed.
pub open spec fn is_slot(ws: Seq<WordView>, i: int) -> bool {
    1 <= i < ws.len() && ws[i].adjustable && ws[i - 1].adjustable && ws[i].gap > 0
}

/// How many stretchable gaps come before word `i`.
pub open spec fn slots_before(ws: Seq<WordView>, i: int) -> nat
    decreases i,
{
    if i <= 0 {
        0
    } else {
        slots_before(ws, i - 1) + if is_slot(ws, i - 1) { 1nat } else { 0nat }
    }
}

/// How many stretchable gaps the line has.
pub open spec fn slot_count(ws: Seq<WordView>) -> nat {
    slots_before(ws, ws.len() as int)
}

/// The order in which the gap before word `i` gets its share: from the
/// left, or from the right on every other justified line.
pub open spec fn slot_rank(ws: Seq<WordView>, i: int, from_right: bool) -> int {
    if from_right {
        slot_count(ws) - 1 - slots_before(ws, i)
    } else {
        slots_before(ws, i) as int
    }
}

/// The columns added before word `i`: each stretchable gap gets
/// `extra / n`, and the first `extra % n` of them in order one more.
pub open spec fn spread_amount(ws: Seq<WordView>, i: int, extra: int, from_right: bool) -> int {
    let n = slot_count(ws) as int;
    if is_slot(ws, i) {
        extra / n + if slot_rank(ws, i, from_right) < extra % n { 1int } else { 0int }
    } else {
        0
    }
}

/// Whether justifying to `avail` columns stretches the line: it is
/// shorter and has a stretchable gap.
pub open spec fn spreads(ws: Seq<WordView>, avail: int) -> bool {
    line_total(ws) < avail && slot_count(ws) > 0
}

/// The gaps of the words once the line is justified to `avail` columns.
pub open spec fn spread_spec(ws: Seq<WordView>, avail: int, from_right: bool) -> Seq<usize> {
    if spreads(ws, avail) {
        Seq::new(
            ws.len(),
            |i: int| (ws[i].gap + spread_amount(ws, i, avail - line_total(ws), from_right)) as usize,
        )
    } else {
        Seq::new(ws.len(), |i: int| ws[i].gap)
    }
}

proof fn lemma_slots_grow(ws: Seq<WordView>, a: int, b: int)
    requires
        0 <= a < b,
        is_slot(ws, a),
    ensures
        slots_before(ws, b) > slots_before(ws, a),
    decreases b - a,
{
    if b > a + 1 {
        lemma_slots_grow(ws, a, b - 1);
    }
}

proof fn lemma_slots_bounded(ws: Seq<WordView>, i: int)
    requires
        0 <= i <= ws.len(),
    ensures
        slots_before(ws, i) <= slot_count(ws),
        is_slot(ws, i) ==> slots_before(ws, i) < slot_count(ws),
    decreases ws.len() - i,
{
    if i < ws.len() {
        lemma_slots_bounded(ws, i + 1);
    }
}

proof fn lemma_gap_within(ws: Seq<WordView>, i: int)
    requires
        0 <= i < ws.len(),
    ensures
        ws[i].gap <= line_total(ws),
    decreases ws.len(),
{
    lemma_total_nonneg(ws.drop_last());
    if i < ws.len() - 1 {
        lemma_gap_within(ws.drop_last(), i);
    }
}

proof fn lemma_total_nonneg(ws: Seq<WordView>)
    ensures
        line_total(ws) >= 0,
    decreases ws.len(),
{
    if ws.len() > 0 {
        lemma_total_nonneg(ws.drop_last());
    }
}

proof fn lemma_share_bounded(extra: int, n: int, bonus: int)
    requires
        n >= 1,
        extra >= 0,
        bonus == 0 || (bonus == 1 && extra % n >= 1),
    ensures
        extra / n + bonus <= extra,
        extra / n >= 0,
{
    assert(extra == n * (extra / n) + extra % n) by (nonlinear_arith)
        requires
            n >= 1,
    ;
    assert(extra / n >= 0 && extra % n >= 0) by (nonlinear_arith)
        requires
            n >= 1,
            extra >= 0,
    ;
    assert(n * (extra / n) >= extra / n) by (nonlinear_arith)
        requires
            n >= 1,
            extra / n >= 0,
    ;
}

/// The sum of the gaps of a line.
pub open spec fn gap_sum(g: Seq<usize>) -> int
    decreases g.len(),
{
    if g.len() == 0 {
        0
    } else {
        gap_sum(g.drop_last()) + g.last()
    }
}

/// The gaps of a line's words once it is justified to `avail` columns,
/// and whether it was stretched (the caller then counts one more
/// justified line, which turns the order of the shares).
pub fn spread_gaps(words: &[Word], avail: usize, from_right: bool) -> (r: (Vec<usize>, bool))
    requires
        line_total(words_view(words@)) <= usize::MAX,
    ensures
        r.0@ == spread_spec(words_view(words@), avail as int, from_right),
        r.1 == spreads(words_view(words@), avail as int),
{
    let ghost ws = words_view(words@);
    let mut total: usize = 0;
    let mut gaps: Vec<usize> = Vec::new();
    let mut slots: Vec<usize> = Vec::new();
    let mut i: usize = 0;
    proof {
        lemma_total_nonneg(ws);
    }
    while i < words.len()
        invariant
            i <= words@.len(),
            ws == words_view(words@),
            line_total(ws) <= usize::MAX,
            total as int == line_total(ws.take(i as int)),
            gaps@ == Seq::new(i as nat, |k: int| ws[k].gap),
            slots@.len() == slots_before(ws, i as int),
            forall|k: int| 0 <= k < slots@.len() ==> slots@[k] < i && is_slot(ws, slots@[k] as int)
                && slots_before(ws, slots@[k] as int) == k,
        decreases words.len() - i,
    {
        proof {
            assert(ws.take(i + 1).drop_last() =~= ws.take(i as int));
            lemma_prefix_total(ws, i + 1);
        }
        total = total + words[i].width + words[i].gap;
        if i >= 1 && words[i].adjustable && words[i - 1].adjustable && words[i].gap > 0 {
            slots.push(i);
        }
        gaps.push(words[i].gap);
        i += 1;
        proof {
            assert(gaps@ =~= Seq::new(i as nat, |k: int| ws[k].gap));
        }
    }
    proof {
        assert(ws.take(words.len() as int) =~= ws);
    }
    let n = slots.len();
    if !(total < avail && n > 0) {
        proof {
            assert(gaps@ =~= spread_spec(ws, avail as int, from_right));
        }
        return (gaps, false);
    }
    let extra = avail - total;
    let per = extra / n;
    let rem = extra % n;
    let ghost orig = gaps@;
    proof {
        assert forall|j: int| 0 <= j < ws.len() && is_slot(ws, j) implies slot_rank(ws, j, from_right) >= 0 by {
            lemma_slots_bounded(ws, j);
        }
    }
    let mut k: usize = 0;
    while k < n
        invariant
            k <= n,
            n == slots@.len(),
            n == slot_count(ws),
            n >= 1,
            ws == words_view(words@),
            ws.len() == words@.len(),
            orig == Seq::new(ws.len(), |j: int| ws[j].gap),
            extra as int == avail - line_total(ws),
            line_total(ws) >= 0,
            per == extra / n,
            rem == extra % n,
            gaps@.len() == ws.len(),
            forall|q: int| 0 <= q < slots@.len() ==> slots@[q] < ws.len() && is_slot(ws, slots@[q] as int)
                && slots_before(ws, slots@[q] as int) == q,
            forall|j: int|
                #![trigger gaps@[j]]
                0 <= j < ws.len() ==> gaps@[j] == orig[j] + if is_slot(ws, j) && slot_rank(ws, j, from_right) < k {
                    spread_amount(ws, j, extra as int, from_right)
                } else {
                    0
                },
        decreases n - k,
    {
        let idx = if from_right {
            slots[n - 1 - k]
        } else {
            slots[k]
        };
        let bonus: usize = if k < rem {
            1
        } else {
            0
        };
        proof {
            assert(slot_rank(ws, idx as int, from_right) == k);
            lemma_gap_within(ws, idx as int);
            lemma_share_bounded(extra as int, n as int, bonus as int);
            assert forall|j: int| 0 <= j < ws.len() && is_slot(ws, j) && j != idx implies slots_before(ws, j)
                != slots_before(ws, idx as int) by {
                if j < idx {
                    lemma_slots_grow(ws, j, idx as int);
                } else {
                    lemma_slots_grow(ws, idx as int, j);
                }
            }
            assert(gaps@[idx as int] == orig[idx as int]);
        }
        let g = gaps[idx] + per + bonus;
        let ghost before = gaps@;
        gaps.set(idx, g);
        proof {
            assert forall|j: int| #![trigger gaps@[j]] 0 <= j < ws.len() implies gaps@[j] == orig[j] + if is_slot(ws, j) && slot_rank(
                ws,
                j,
                from_right,
            ) < k + 1 {
                spread_amount(ws, j, extra as int, from_right)
            } else {
                0
            } by {
                if j != idx {
                    assert(gaps@[j] == before[j]);
                    if is_slot(ws, j) {
                        assert(slots_before(ws, j) != slots_before(ws, idx as int));
                        assert(slot_rank(ws, j, from_right) != k);
                    }
                } else {
                    assert(spread_amount(ws, j, extra as int, from_right) == per + bonus);
                }
            }
        }
        k += 1;
    }
    proof {
        assert forall|j: int| 0 <= j < ws.len() && is_slot(ws, j) implies slot_rank(ws, j, from_right) < n by {
            lemma_slots_bounded(ws, j);
        }
        assert(gaps@ =~= spread_spec(ws, avail as int, from_right));
    }
    (gaps, true)
}

proof fn lemma_prefix_total(ws: Seq<WordView>, i: int)
    requires
        0 <= i <= ws.len(),
    ensures
        line_total(ws.take(i)) <= line_total(ws),
        line_total(ws.take(i)) >= 0,
    decreases ws.len() - i,
{
    lemma_total_nonneg(ws.take(i));
    if i < ws.len() {
        lemma_prefix_total(ws, i + 1);
        assert(ws.take(i + 1).drop_last() =~= ws.take(i));
    } else {
        assert(ws.take(i) =~= ws);
    }
}


/// The words of a line with the gaps `g`.
pub open spec fn with_gaps(ws: Seq<WordView>, g: Seq<usize>) -> Seq<WordView> {
    Seq::new(ws.len(), |i: int| WordView { gap: g[i], ..ws[i] })
}

/// How many of the first `c` stretchable gaps in line order get the one
/// column more.
pub open spec fn bonus_before(c: int, n: int, rem: int, from_right: bool) -> int {
    if from_right {
        if c - (n - rem) > 0 { c - (n - rem) } else { 0 }
    } else {
        if c < rem { c } else { rem }
    }
}

proof fn lemma_spread_prefix(ws: Seq<WordView>, avail: int, from_right: bool, i: int)
    requires
        spreads(ws, avail),
        avail <= usize::MAX,
        0 <= i <= ws.len(),
    ensures
        ({
            let n = slot_count(ws) as int;
            let extra = avail - line_total(ws);
            line_total(with_gaps(ws, spread_spec(ws, avail, from_right)).take(i)) == line_total(ws.take(i))
                + (extra / n) * slots_before(ws, i) + bonus_before(slots_before(ws, i) as int, n, extra % n, from_right)
        }),
    decreases i,
{
    let n = slot_count(ws) as int;
    let extra = avail - line_total(ws);
    let wg = with_gaps(ws, spread_spec(ws, avail, from_right));
    assert(extra % n < n && extra % n >= 0 && extra / n >= 0) by (nonlinear_arith)
        requires
            n >= 1,
            extra >= 1,
    ;
    if i == 0 {
        assert(wg.take(0) =~= Seq::<WordView>::empty());
        assert(ws.take(0) =~= Seq::<WordView>::empty());
    } else {
        lemma_spread_prefix(ws, avail, from_right, i - 1);
        assert(wg.take(i).drop_last() =~= wg.take(i - 1));
        assert(ws.take(i).drop_last() =~= ws.take(i - 1));
        let k = i - 1;
        let sb = slots_before(ws, k) as int;
        lemma_total_nonneg(ws);
        lemma_gap_within(ws, k);
        if is_slot(ws, k) {
            let bonus: int = if slot_rank(ws, k, from_right) < extra % n { 1 } else { 0 };
            lemma_slots_bounded(ws, k);
            lemma_share_bounded(extra, n, bonus);
            assert((extra / n) * (sb + 1) == (extra / n) * sb + extra / n) by (nonlinear_arith);
            assert(wg[k].gap == ws[k].gap + extra / n + bonus);
        } else {
            assert(wg[k].gap == ws[k].gap);
        }
    }
}

/// Justifying a line that is shorter than its room and has a stretchable
/// gap makes it exactly as wide as the room.
pub proof fn lemma_spread_fills(ws: Seq<WordView>, avail: int, from_right: bool)
    requires
        spreads(ws, avail),
        avail <= usize::MAX,
    ensures
        line_total(with_gaps(ws, spread_spec(ws, avail, from_right))) == avail,
{
    let n = slot_count(ws) as int;
    let extra = avail - line_total(ws);
    lemma_total_nonneg(ws);
    lemma_spread_prefix(ws, avail, from_right, ws.len() as int);
    let wg = with_gaps(ws, spread_spec(ws, avail, from_right));
    assert(wg.take(ws.len() as int) =~= wg);
    assert(ws.take(ws.len() as int) =~= ws);
    assert(extra == n * (extra / n) + extra % n && extra % n < n && extra % n >= 0) by (nonlinear_arith)
        requires
            n >= 1,
            extra >= 1,
    ;
    assert((extra / n) * n == n * (extra / n)) by (nonlinear_arith);
}


/// The tab stops that the arguments of `.ta` give, in columns: each
/// argument's length (`None` where it could not be evaluated, and then
/// skipped), counted from the stop before it where the argument starts
/// with `+`.
pub open spec fn given_stops(specs: Seq<(bool, Option<usize>)>, last: int) -> Seq<int>
    decreases specs.len(),
{
    if specs.len() == 0 {
        Seq::empty()
    } else {
        match specs[0].1 {
            Some(v) => {
                let stop = if specs[0].0 { last + v } else { v as int };
                seq![stop] + given_stops(specs.drop_first(), stop)
            },
            None => given_stops(specs.drop_first(), last),
        }
    }
}

/// Stops every `step` columns after `cur` until one reaches column 400.
pub open spec fn repeat_stops(cur: int, step: int) -> Seq<int>
    decreases (if cur < 400 { 400 - cur } else { 0 }),
{
    if cur < 400 && step >= 1 {
        seq![cur + step] + repeat_stops(cur + step, step)
    } else {
        Seq::empty()
    }
}

/// The distance between the last two given stops, or the single stop
/// (at least 1).
pub open spec fn tab_step(g: Seq<int>) -> int {
    if g.len() >= 2 {
        g[g.len() - 1] - g[g.len() - 2]
    } else if g[0] >= 1 {
        g[0]
    } else {
        1
    }
}

/// The tab stops `.ta` sets: the given ones, then stops at the last
/// distance (at least 1) up to column 400; nothing changes when no
/// argument gave a stop.
pub open spec fn ta_spec(specs: Seq<(bool, Option<usize>)>) -> Option<Seq<int>> {
    let g = given_stops(specs, 0);
    if g.len() == 0 {
        None
    } else {
        let st = tab_step(g);
        Some(g + repeat_stops(g.last(), if st >= 1 { st } else { 1 }))
    }
}

/// Whether the stops `.ta` gives fit in `usize` with room to repeat them,
/// and the last two do not go back (their distance is the repeat step).
pub open spec fn ta_fits(specs: Seq<(bool, Option<usize>)>) -> bool {
    let g = given_stops(specs, 0);
    &&& forall|k: int| 0 <= k < g.len() ==> 0 <= #[trigger] g[k] <= usize::MAX - 401
    &&& g.len() >= 2 ==> g[g.len() - 1] >= g[g.len() - 2]
}

proof fn lemma_given_prefix(specs: Seq<(bool, Option<usize>)>, last: int, i: int)
    requires
        0 <= i < specs.len(),
    ensures
        given_stops(specs.skip(i), last) == match specs[i].1 {
            Some(v) => {
                let stop = if specs[i].0 { last + v } else { v as int };
                seq![stop] + given_stops(specs.skip(i + 1), stop)
            },
            None => given_stops(specs.skip(i + 1), last),
        },
{
    assert(specs.skip(i).drop_first() =~= specs.skip(i + 1));
    assert(specs.skip(i).len() > 0);
    assert(specs.skip(i)[0] == specs[i]);
}

/// The stops the arguments of `.ta` give, before they repeat.
fn given_tab_stops(specs: &[(bool, Option<usize>)]) -> (r: Vec<usize>)
    requires
        ta_fits(specs@),
    ensures
        r@.map_values(|x: usize| x as int) == given_stops(specs@, 0),
{
    let ghost g = given_stops(specs@, 0);
    let mut stops: Vec<usize> = Vec::new();
    let mut last: usize = 0;
    let mut i: usize = 0;
    proof {
        assert(specs@.skip(0) =~= specs@);
    }
    while i < specs.len()
        invariant
            i <= specs@.len(),
            g == given_stops(specs@, 0),
            ta_fits(specs@),
            stops@.map_values(|x: usize| x as int) + given_stops(specs@.skip(i as int), last as int) == g,
            stops@.len() > 0 ==> last == stops@.last(),
            stops@.len() == 0 ==> last == 0,
        decreases specs.len() - i,
    {
        proof {
            lemma_given_prefix(specs@, last as int, i as int);
        }
        let (rel, len) = specs[i];
        match len {
            Some(v) => {
                let ghost k = stops@.len() as int;
                proof {
                    assert(g[k] == (if rel { last + v } else { v as int }));
                }
                let stop = if rel {
                    last + v
                } else {
                    v
                };
                let ghost before = stops@;
                stops.push(stop);
                proof {
                    assert(stops@.map_values(|x: usize| x as int) =~= before.map_values(|x: usize| x as int).push(
                        stop as int,
                    ));
                    assert(seq![stop as int] + given_stops(specs@.skip(i + 1), stop as int) =~= seq![stop as int].add(
                        given_stops(specs@.skip(i + 1), stop as int),
                    ));
                    assert(before.map_values(|x: usize| x as int) + (seq![stop as int] + given_stops(
                        specs@.skip(i + 1),
                        stop as int,
                    )) =~= stops@.map_values(|x: usize| x as int) + given_stops(specs@.skip(i + 1), stop as int));
                }
                last = stop;
            },
            None => {},
        }
        i += 1;
    }
    proof {
        assert(specs@.skip(specs@.len() as int) =~= Seq::<(bool, Option<usize>)>::empty());
        assert(stops@.map_values(|x: usize| x as int) + Seq::<int>::empty() =~= stops@.map_values(|x: usize| x as int));
    }
    stops
}

/// Whether the stops of `.ta` fit (see `ta_fits`).
pub fn tab_stops_fit(specs: &[(bool, Option<usize>)]) -> (r: bool)
    ensures
        r == ta_fits(specs@),
{
    let ghost g = given_stops(specs@, 0);
    let mut last: i128 = 0;
    let mut prev: i128 = 0;
    let mut count: usize = 0;
    let mut i: usize = 0;
    let bound: i128 = (usize::MAX - 401) as i128;
    proof {
        assert(specs@.skip(0) =~= specs@);
    }
    while i < specs.len()
        invariant
            i <= specs@.len(),
            g == given_stops(specs@, 0),
            bound == usize::MAX - 401,
            count <= i,
            g.len() == count + given_stops(specs@.skip(i as int), last as int).len(),
            given_stops(specs@.skip(i as int), last as int) =~= g.skip(count as int),
            forall|k: int| 0 <= k < count ==> 0 <= #[trigger] g[k] <= bound,
            count > 0 ==> last == g[count - 1],
            count == 0 ==> last == 0,
            count > 1 ==> prev == g[count - 2],
            0 <= last <= bound,
        decreases specs.len() - i,
    {
        proof {
            lemma_given_prefix(specs@, last as int, i as int);
        }
        let (rel, len) = specs[i];
        match len {
            Some(v) => {
                let stop: i128 = if rel {
                    last + v as i128
                } else {
                    v as i128
                };
                proof {
                    let tail = given_stops(specs@.skip(i + 1), stop as int);
                    assert(given_stops(specs@.skip(i as int), last as int) == seq![stop as int] + tail);
                    assert((seq![stop as int] + tail)[0] == stop as int);
                    assert((seq![stop as int] + tail).skip(1) =~= tail);
                    assert(g.skip(count as int)[0] == stop);
                    assert(g[count as int] == stop);
                    assert(g.skip(count as int).skip(1) =~= g.skip(count + 1));
                    assert(tail =~= g.skip(count + 1));
                }
                if stop > bound {
                    return false;
                }
                prev = last;
                last = stop;
                count += 1;
            },
            None => {},
        }
        i += 1;
    }
    proof {
        assert(specs@.skip(specs@.len() as int) =~= Seq::<(bool, Option<usize>)>::empty());
    }
    !(count >= 2 && last < prev)
}

/// The tab stops `.ta` sets, or `None` when no argument gave one.
pub fn tab_stops_of(specs: &[(bool, Option<usize>)]) -> (r: Option<Vec<usize>>)
    requires
        ta_fits(specs@),
    ensures
        match ta_spec(specs@) {
            Some(s) => r is Some && r->Some_0@.map_values(|x: usize| x as int) == s,
            None => r is None,
        },
{
    let mut stops = given_tab_stops(specs);
    let ghost g = given_stops(specs@, 0);
    let n = stops.len();
    if n == 0 {
        proof {
            assert(g =~= Seq::<int>::empty());
        }
        return None;
    }
    proof {
        assert(stops@.map_values(|x: usize| x as int)[n - 1] == g[n - 1]);
        if n >= 2 {
            assert(stops@.map_values(|x: usize| x as int)[n - 2] == g[n - 2]);
        }
        assert(stops@.map_values(|x: usize| x as int)[0] == g[0]);
    }
    let step: usize = if n >= 2 {
        stops[n - 1] - stops[n - 2]
    } else if stops[0] >= 1 {
        stops[0]
    } else {
        1
    };
    let step: usize = if step >= 1 {
        step
    } else {
        1
    };
    let mut cur = stops[n - 1];
    let ghost base = stops@.map_values(|x: usize| x as int);
    proof {
        assert(base == g);
    }
    while cur < 400
        invariant
            step >= 1,
            step <= usize::MAX - 401,
            cur <= usize::MAX - 1,
            stops@.map_values(|x: usize| x as int) + repeat_stops(cur as int, step as int) == g + repeat_stops(
                g.last(),
                step as int,
            ),
        decreases (if cur < 400 { 400 - cur } else { 0 }),
    {
        let ghost before = stops@;
        cur = cur + step;
        stops.push(cur);
        proof {
            assert(stops@.map_values(|x: usize| x as int) =~= before.map_values(|x: usize| x as int).push(cur as int));
            assert(before.map_values(|x: usize| x as int) + repeat_stops((cur - step) as int, step as int)
                =~= stops@.map_values(|x: usize| x as int) + repeat_stops(cur as int, step as int));
        }
    }
    proof {
        assert(stops@.map_values(|x: usize| x as int) + repeat_stops(cur as int, step as int) =~= stops@.map_values(
            |x: usize| x as int,
        ));
        assert(g.last() == g[g.len() - 1]);
    }
    Some(stops)
}


/// How lines are adjusted.
#[derive(Debug, Clone, Copy, PartialEq, Eq, Structural)]
pub enum Adjust {
    Left,
    Both,
    Center,
    Right,
}

/// The mode `.ad` selects: `l`, `r` and `c` as named, else both margins.
pub open spec fn adjust_spec(arg: Option<Seq<char>>) -> Adjust {
    match arg {
        Some(a) => if a == "l"@ {
            Adjust::Left
        } else if a == "r"@ {
            Adjust::Right
        } else if a == "c"@ {
            Adjust::Center
        } else {
            Adjust::Both
        },
        None => Adjust::Both,
    }
}

/// The mode `.ad` selects.
pub fn adjust_of(arg: Option<&str>) -> (r: Adjust)
    ensures
        r == adjust_spec(match arg {
            Some(a) => Some(a@),
            None => None,
        }),
{
    match arg {
        Some(a) => if crate::text::str_eq(a, "l") {
            Adjust::Left
        } else if crate::text::str_eq(a, "r") {
            Adjust::Right
        } else if crate::text::str_eq(a, "c") {
            Adjust::Center
        } else {
            Adjust::Both
        },
        None => Adjust::Both,
    }
}

/// The words of a line with the gaps `g` before them (none before the
/// first).
pub open spec fn line_body(ws: Seq<WordView>, g: Seq<usize>) -> Seq<char>
    decreases ws.len(),
{
    if ws.len() == 0 {
        Seq::empty()
    } else {
        let k = ws.len() - 1;
        line_body(ws.drop_last(), g) + (if k > 0 { crate::groff::spaces(g[k] as nat) } else { Seq::empty() })
            + ws[k].text
    }
}

/// Whether a text holds only the markers of zero width and of no
/// hyphenation.
pub open spec fn only_markers(t: Seq<char>) -> bool {
    forall|i: int| 0 <= i < t.len() ==> #[trigger] t[i] == '\u{E000}' || t[i] == '\u{E001}'
}

/// The columns before a line of `total` columns: the indent, half the
/// room left past it when centered, the room left when set to the right.
pub open spec fn line_lead(ind: usize, adjust: Adjust, ll: usize, total: int) -> int {
    match adjust {
        Adjust::Center => ind + (sat(sat(ll - ind) - total)) / 2,
        Adjust::Right => sat(ll - total) as int,
        _ => ind as int,
    }
}

/// The text of an output line: empty when it holds only markers and no
/// columns, else its lead and its words.
pub open spec fn line_spec(ws: Seq<WordView>, g: Seq<usize>, ind: usize, adjust: Adjust, ll: usize) -> Seq<char> {
    let body = line_body(ws, g);
    if line_total(ws) == 0 && only_markers(body) {
        Seq::empty()
    } else {
        crate::groff::spaces(line_lead(ind, adjust, ll, line_total(ws)) as nat) + body
    }
}

/// `x` cut to the range of `usize`.
pub open spec fn sat(x: int) -> usize {
    crate::groff::render::sat(x)
}

/// Appends `n` blanks to `s`.
fn push_blanks(s: &mut String, n: usize)
    ensures
        final(s)@ == old(s)@ + crate::groff::spaces(n as nat),
{
    let ghost s0 = s@;
    let mut k: usize = 0;
    while k < n
        invariant
            k <= n,
            s@ == s0 + crate::groff::spaces(k as nat),
        decreases n - k,
    {
        crate::text::push_char(s, ' ');
        proof {
            assert(crate::groff::spaces((k + 1) as nat) =~= crate::groff::spaces(k as nat).push(' '));
        }
        k += 1;
    }
}

/// The text of an output line.
pub fn set_line(words: &[Word], gaps: &[usize], ind: usize, adjust: Adjust, ll: usize) -> (r: String)
    requires
        gaps@.len() == words@.len(),
        line_total(words_view(words@)) <= usize::MAX,
    ensures
        r@ == line_spec(words_view(words@), gaps@, ind, adjust, ll),
{
    let ghost ws = words_view(words@);
    let mut body = String::new();
    let mut total: usize = 0;
    let mut markers = true;
    let mut i: usize = 0;
    proof {
        lemma_total_nonneg(ws);
        assert(ws.take(0) =~= Seq::<WordView>::empty());
    }
    while i < words.len()
        invariant
            i <= words@.len(),
            gaps@.len() == words@.len(),
            ws == words_view(words@),
            line_total(ws) <= usize::MAX,
            body@ == line_body(ws.take(i as int), gaps@),
            total as int == line_total(ws.take(i as int)),
            markers == only_markers(body@),
        decreases words.len() - i,
    {
        proof {
            assert(ws.take(i + 1).drop_last() =~= ws.take(i as int));
            lemma_prefix_total(ws, i + 1);
        }
        let ghost b0 = body@;
        if i > 0 {
            push_blanks(&mut body, gaps[i]);
            if gaps[i] > 0 {
                markers = false;
                proof {
                    assert(body@[b0.len() as int] == ' ');
                }
            } else {
                proof {
                    assert(body@ =~= b0);
                }
            }
        }
        let ghost b1 = body@;
        let t = crate::text::chars_of(words[i].text.as_str());
        let mut j: usize = 0;
        while j < t.len()
            invariant
                j <= t@.len(),
                body@ == b1 + t@.take(j as int),
                markers == (only_markers(b1) && only_markers(t@.take(j as int))),
            decreases t.len() - j,
        {
            proof {
                assert(t@.take(j + 1) =~= t@.take(j as int).push(t@[j as int]));
            }
            let c = t[j];
            crate::text::push_char(&mut body, c);
            if c != '\u{E000}' && c != '\u{E001}' {
                markers = false;
                proof {
                    assert(t@.take(j + 1)[j as int] == c);
                }
            }
            j += 1;
            proof {
                if markers {
                    assert(only_markers(t@.take(j as int)));
                }
            }
        }
        proof {
            assert(t@.take(t@.len() as int) =~= t@);
            assert(words@[i as int].text@ == ws[i as int].text);
            if i == 0 {
                assert(b1 =~= b0);
            }
            assert(markers == only_markers(body@)) by {
                if only_markers(b1) && only_markers(t@) {
                    assert(only_markers(b1 + t@));
                }
                if only_markers(body@) {
                    assert forall|q: int| 0 <= q < b1.len() implies #[trigger] b1[q] == '\u{E000}' || b1[q] == '\u{E001}' by {
                        assert(body@[q] == b1[q]);
                    }
                    assert forall|q: int| 0 <= q < t@.len() implies #[trigger] t@[q] == '\u{E000}' || t@[q] == '\u{E001}' by {
                        assert(body@[b1.len() + q] == t@[q]);
                    }
                }
            }
        }
        total = total + words[i].width + words[i].gap;
        i += 1;
    }
    proof {
        assert(ws.take(words.len() as int) =~= ws);
    }
    if total == 0 && markers {
        return String::new();
    }
    let lead: usize = match adjust {
        Adjust::Center => {
            let room = if ll >= ind { ll - ind } else { 0 };
            let free = if room >= total { room - total } else { 0 };
            ind + free / 2
        },
        Adjust::Right => if ll >= total {
            ll - total
        } else {
            0
        },
        _ => ind,
    };
    let mut r = String::new();
    push_blanks(&mut r, lead);
    r.append(body.as_str());
    r
}


/// The gap before word `i` of a run set on one line: at least one column.
pub open spec fn open_gap(ws: Seq<WordView>, i: int) -> usize {
    if ws[i].gap >= 1 {
        ws[i].gap
    } else {
        1
    }
}

/// The text of words set on one line with at least one column between
/// them (headings, plain texts, tags).
pub open spec fn joined_text(ws: Seq<WordView>) -> Seq<char>
    decreases ws.len(),
{
    if ws.len() == 0 {
        Seq::empty()
    } else {
        let k = ws.len() - 1;
        joined_text(ws.drop_last()) + (if k > 0 { crate::groff::spaces(open_gap(ws, k) as nat) } else { Seq::empty() })
            + ws[k].text
    }
}

/// The columns of words set on one line with at least one column between
/// them.
pub open spec fn joined_width(ws: Seq<WordView>) -> int
    decreases ws.len(),
{
    if ws.len() == 0 {
        0
    } else {
        let k = ws.len() - 1;
        joined_width(ws.drop_last()) + (if k > 0 { open_gap(ws, k) as int } else { 0 }) + ws[k].width
    }
}

proof fn lemma_joined_prefix(ws: Seq<WordView>, i: int)
    requires
        0 <= i <= ws.len(),
    ensures
        0 <= joined_width(ws.take(i)) <= joined_width(ws),
    decreases ws.len() - i,
{
    if i < ws.len() {
        lemma_joined_prefix(ws, i + 1);
        assert(ws.take(i + 1).drop_last() =~= ws.take(i));
        assert(ws.take(i + 1)[i] == ws[i]);
    } else {
        assert(ws.take(i) =~= ws);
    }
    lemma_joined_nonneg(ws.take(i));
}

proof fn lemma_joined_nonneg(ws: Seq<WordView>)
    ensures
        joined_width(ws) >= 0,
    decreases ws.len(),
{
    if ws.len() > 0 {
        lemma_joined_nonneg(ws.drop_last());
    }
}

/// Words set on one line with at least one column between them: the text
/// and its columns.
pub fn join_words(words: &[Word]) -> (r: (String, usize))
    requires
        joined_width(words_view(words@)) <= usize::MAX,
    ensures
        r.0@ == joined_text(words_view(words@)),
        r.1 as int == joined_width(words_view(words@)),
{
    let ghost ws = words_view(words@);
    let mut text = String::new();
    let mut width: usize = 0;
    let mut i: usize = 0;
    proof {
        assert(ws.take(0) =~= Seq::<WordView>::empty());
    }
    while i < words.len()
        invariant
            i <= words@.len(),
            ws == words_view(words@),
            joined_width(ws) <= usize::MAX,
            text@ == joined_text(ws.take(i as int)),
            width as int == joined_width(ws.take(i as int)),
        decreases words.len() - i,
    {
        proof {
            assert(ws.take(i + 1).drop_last() =~= ws.take(i as int));
            assert(ws.take(i + 1)[i as int] == ws[i as int]);
            lemma_joined_prefix(ws, i + 1);
            lemma_joined_nonneg(ws.take(i as int));
        }
        if i > 0 {
            let g: usize = if words[i].gap >= 1 {
                words[i].gap
            } else {
                1
            };
            push_blanks(&mut text, g);
            width = width + g;
        }
        text.append(words[i].text.as_str());
        width = width + words[i].width;
        i += 1;
    }
    proof {
        assert(ws.take(words.len() as int) =~= ws);
    }
    (text, width)
}


/// Where a word goes on a filled line.
#[derive(Debug, Clone, Copy, PartialEq, Eq, Structural)]
pub enum Placement {
    /// On the line, after a gap of this many columns.
    Fits(usize),
    /// It does not fit: try to hyphenate it, the head taking at most
    /// `space` columns after a gap of `gap` columns.
    TrySplit { gap: usize, space: usize },
    /// Alone on the empty line, though it is too wide.
    Alone,
    /// On the next line: the line is printed first.
    Break,
}

/// The gap before a word: none at the start of a line, at least the
/// sentence gap after the end of a sentence.
pub open spec fn word_gap(line_empty: bool, after_sentence: bool, gap: usize, extra: usize) -> int {
    if line_empty {
        0
    } else if after_sentence {
        if gap >= 1 + extra { gap as int } else { 1 + extra }
    } else {
        gap as int
    }
}

/// Where a word of `width` columns goes on a line of `cur_width` columns
/// with `avail` columns of room: there when it fits; else, in fill mode
/// with at least two columns left, a hyphenation is tried; else alone on
/// an empty line, or on the next line.
pub open spec fn placement_spec(
    line_empty: bool,
    after_sentence: bool,
    cur_width: usize,
    gap: usize,
    width: usize,
    extra: usize,
    avail: usize,
    fill: bool,
) -> Placement {
    let g = word_gap(line_empty, after_sentence, gap, extra);
    let space = if avail >= cur_width + g { avail - cur_width - g } else { 0 };
    if cur_width + g + width <= avail {
        Placement::Fits(g as usize)
    } else if fill && space >= 2 {
        Placement::TrySplit { gap: g as usize, space: space as usize }
    } else if line_empty {
        Placement::Alone
    } else {
        Placement::Break
    }
}

/// Where a word goes on a filled line.
pub fn placement(
    line_empty: bool,
    after_sentence: bool,
    cur_width: usize,
    gap: usize,
    width: usize,
    extra: usize,
    avail: usize,
    fill: bool,
) -> (r: Placement)
    requires
        cur_width + gap + width + extra + 1 <= usize::MAX,
    ensures
        r == placement_spec(line_empty, after_sentence, cur_width, gap, width, extra, avail, fill),
{
    let g: usize = if line_empty {
        0
    } else if after_sentence {
        if gap >= 1 + extra {
            gap
        } else {
            1 + extra
        }
    } else {
        gap
    };
    let space: usize = if avail >= cur_width + g {
        avail - cur_width - g
    } else {
        0
    };
    if cur_width + g + width <= avail {
        Placement::Fits(g)
    } else if fill && space >= 2 {
        Placement::TrySplit { gap: g, space }
    } else if line_empty {
        Placement::Alone
    } else {
        Placement::Break
    }
}


/// A word placed on a line keeps the line within its room, and a word is
/// set alone only on an empty line.
pub proof fn lemma_placement_keeps_room(
    line_empty: bool,
    after_sentence: bool,
    cur_width: usize,
    gap: usize,
    width: usize,
    extra: usize,
    avail: usize,
    fill: bool,
)
    ensures
        ({
            let p = placement_spec(line_empty, after_sentence, cur_width, gap, width, extra, avail, fill);
            &&& p matches Placement::Fits(g) ==> cur_width + g + width <= avail
            &&& p == Placement::Alone ==> line_empty
            &&& p matches Placement::TrySplit { gap: g, space } ==> fill && 2 <= space && cur_width + g + space
                == avail
        }),
{
}

} // verus!
