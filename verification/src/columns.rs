use vstd::prelude::*;

use crate::process_tree::same_chars;
use crate::text::{chars_of, string_from_chars};

verus! {

// ---------------------------------------------------------------------------
// Splitting and joining
// ---------------------------------------------------------------------------

/// The pieces of `s` between the occurrences of `sep` (`str::split`): one
/// more piece than there are separators, so `""` gives one empty piece.
pub open spec fn split_on(s: Seq<char>, sep: char) -> Seq<Seq<char>>
    decreases s.len(),
{
    if s.len() == 0 {
        seq![Seq::empty()]
    } else {
        let r = split_on(s.drop_last(), sep);
        if s.last() == sep {
            r.push(Seq::empty())
        } else {
            r.update(r.len() - 1, r.last().push(s.last()))
        }
    }
}

/// The pieces of `xs` with `sep` between each two.
pub open spec fn join_with(xs: Seq<Seq<char>>, sep: char) -> Seq<char>
    decreases xs.len(),
{
    if xs.len() == 0 {
        Seq::empty()
    } else if xs.len() == 1 {
        xs[0]
    } else {
        join_with(xs.drop_last(), sep).push(sep) + xs.last()
    }
}

/// Splitting always gives at least one piece.
pub proof fn lemma_split_nonempty(s: Seq<char>, sep: char)
    ensures
        split_on(s, sep).len() >= 1,
    decreases s.len(),
{
    if s.len() > 0 {
        lemma_split_nonempty(s.drop_last(), sep);
    }
}

/// Splitting `a`, a separator, then `b` (free of separators) gives the
/// pieces of `a` followed by `b`.
proof fn lemma_split_append(a: Seq<char>, b: Seq<char>, sep: char)
    requires
        !b.contains(sep),
    ensures
        split_on(a.push(sep) + b, sep) == split_on(a, sep).push(b),
    decreases b.len(),
{
    if b.len() == 0 {
        assert(a.push(sep) + b =~= a.push(sep));
        assert((a.push(sep)).drop_last() =~= a);
        assert(b =~= Seq::<char>::empty());
        assert((a.push(sep)).last() == sep);
        assert(split_on(a.push(sep), sep) == split_on(a, sep).push(Seq::<char>::empty()));
    } else {
        let b0 = b.drop_last();
        assert(!b0.contains(sep)) by {
            if b0.contains(sep) {
                let k = choose|k: int| 0 <= k < b0.len() && b0[k] == sep;
                assert(b[k] == sep);
            }
        }
        lemma_split_append(a, b0, sep);
        let s = a.push(sep) + b;
        assert(s.drop_last() =~= a.push(sep) + b0);
        assert(s.last() == b.last());
        assert(b.last() != sep) by {
            assert(b[b.len() - 1] == b.last());
        }
        lemma_split_nonempty(a, sep);
        let r = split_on(a, sep).push(b0);
        assert(r.update(r.len() - 1, r.last().push(b.last())) =~= split_on(a, sep).push(b)) by {
            assert(b0.push(b.last()) =~= b);
        }
    }
}

/// A piece free of separators splits into itself.
proof fn lemma_split_plain(b: Seq<char>, sep: char)
    requires
        !b.contains(sep),
    ensures
        split_on(b, sep) == seq![b],
    decreases b.len(),
{
    if b.len() == 0 {
        assert(b =~= Seq::<char>::empty());
        assert(split_on(b, sep) =~= seq![b]);
    } else {
        let b0 = b.drop_last();
        assert(!b0.contains(sep)) by {
            if b0.contains(sep) {
                let k = choose|k: int| 0 <= k < b0.len() && b0[k] == sep;
                assert(b[k] == sep);
            }
        }
        lemma_split_plain(b0, sep);
        assert(b.last() != sep) by {
            assert(b[b.len() - 1] == b.last());
        }
        assert(b0.push(b.last()) =~= b);
        let r = split_on(b0, sep);
        assert(r.len() - 1 == 0);
        assert(r.last() == b0);
        assert(split_on(b, sep) == r.update(r.len() - 1, r.last().push(b.last())));
        assert(r.update(0, b0.push(b.last())) =~= seq![b]);
    }
}

/// Splitting what was joined gives the pieces back, when there is at least
/// one and none of them holds the separator.
pub proof fn lemma_split_join(xs: Seq<Seq<char>>, sep: char)
    requires
        xs.len() >= 1,
        forall|i: int| 0 <= i < xs.len() ==> !(#[trigger] xs[i]).contains(sep),
    ensures
        split_on(join_with(xs, sep), sep) == xs,
    decreases xs.len(),
{
    if xs.len() == 1 {
        lemma_split_plain(xs[0], sep);
        assert(seq![xs[0]] =~= xs);
    } else {
        let init = xs.drop_last();
        assert forall|i: int| 0 <= i < init.len() implies !(#[trigger] init[i]).contains(sep) by {
            assert(init[i] == xs[i]);
        }
        lemma_split_join(init, sep);
        assert(!xs.last().contains(sep)) by {
            assert(xs[xs.len() - 1] == xs.last());
        }
        lemma_split_append(join_with(init, sep), xs.last(), sep);
        assert(init.push(xs.last()) =~= xs);
    }
}

/// `s.split(sep)` collected into vectors.
pub fn split_chars(s: &Vec<char>, sep: char) -> (r: Vec<Vec<char>>)
    ensures
        r@.len() == split_on(s@, sep).len(),
        forall|i: int| 0 <= i < r@.len() ==> (#[trigger] r@[i])@ == split_on(s@, sep)[i],
{
    let mut done: Vec<Vec<char>> = Vec::new();
    let mut current: Vec<char> = Vec::new();
    let mut i: usize = 0;
    while i < s.len()
        invariant
            i <= s.len(),
            done@.len() + 1 == split_on(s@.take(i as int), sep).len(),
            forall|k: int|
                0 <= k < done@.len() ==> (#[trigger] done@[k])@ == split_on(
                    s@.take(i as int),
                    sep,
                )[k],
            current@ == split_on(s@.take(i as int), sep).last(),
        decreases s.len() - i,
    {
        let ghost prev = split_on(s@.take(i as int), sep);
        let ghost done_before = done@;
        proof {
            lemma_split_nonempty(s@.take(i as int), sep);
            assert(s@.take(i + 1).drop_last() =~= s@.take(i as int));
            assert(s@.take(i + 1).last() == s@[i as int]);
        }
        if s[i] == sep {
            let piece = current;
            done.push(piece);
            current = Vec::new();
            assert(current@ =~= Seq::<char>::empty());
            proof {
                let now = split_on(s@.take(i + 1), sep);
                assert(now == prev.push(Seq::<char>::empty()));
                assert forall|k: int| 0 <= k < done@.len() implies (#[trigger] done@[k])@
                    == now[k] by {
                    if k < done_before.len() {
                        assert(done@[k] == done_before[k]);
                    }
                }
            }
        } else {
            current.push(s[i]);
            proof {
                let now = split_on(s@.take(i + 1), sep);
                assert(now == prev.update(prev.len() - 1, prev.last().push(s@[i as int])));
                assert forall|k: int| 0 <= k < done@.len() implies (#[trigger] done@[k])@
                    == now[k] by {
                    assert(now[k] == prev[k]);
                }
            }
        }
        i = i + 1;
    }
    assert(s@.take(s.len() as int) =~= s@);
    done.push(current);
    done
}

// ---------------------------------------------------------------------------
// Column order
// ---------------------------------------------------------------------------

pub open spec fn opt_view(o: Option<String>) -> Option<Seq<char>> {
    match o {
        Some(s) => Some(s@),
        None => None,
    }
}

/// The ids of the columns, as character sequences (`None`: a column without
/// an id).
pub open spec fn id_views(ids: Seq<Option<String>>) -> Seq<Option<Seq<char>>> {
    Seq::new(ids.len(), |i: int| opt_view(ids[i]))
}

/// The positions `0..n`, in order.
pub open spec fn all_positions(n: nat) -> Seq<usize> {
    Seq::new(n, |i: int| i as usize)
}

/// The index in `remaining[from..]` of the first column whose id is `part`.
pub open spec fn first_with_id(
    ids: Seq<Option<Seq<char>>>,
    remaining: Seq<usize>,
    part: Seq<char>,
    from: nat,
) -> Option<nat>
    decreases remaining.len() - from,
{
    if from >= remaining.len() {
        None
    } else if remaining[from as int] < ids.len() && ids[remaining[from as int] as int] == Some(
        part,
    ) {
        Some(from)
    } else {
        first_with_id(ids, remaining, part, from + 1)
    }
}

/// Places, for each saved id in turn, the first not yet placed column with
/// that id; then the columns left over, in their order.
pub open spec fn restore(
    parts: Seq<Seq<char>>,
    ids: Seq<Option<Seq<char>>>,
    placed: Seq<usize>,
    remaining: Seq<usize>,
) -> Seq<usize>
    decreases parts.len(),
{
    if parts.len() == 0 {
        placed + remaining
    } else {
        match first_with_id(ids, remaining, parts[0], 0) {
            Some(j) => restore(
                parts.drop_first(),
                ids,
                placed.push(remaining[j as int]),
                remaining.remove(j as int),
            ),
            None => restore(parts.drop_first(), ids, placed, remaining),
        }
    }
}

/// The new arrangement of the columns (as positions in their current
/// arrangement, whose ids are `ids`) for the order saved as `saved`: ids
/// separated by `;`.
pub open spec fn restored_column_order(saved: Seq<char>, ids: Seq<Option<Seq<char>>>) -> Seq<usize> {
    restore(split_on(saved, ';'), ids, Seq::empty(), all_positions(ids.len()))
}

/// The ids of the columns that have one, in order.
pub open spec fn present_ids(ids: Seq<Option<Seq<char>>>) -> Seq<Seq<char>>
    decreases ids.len(),
{
    if ids.len() == 0 {
        Seq::empty()
    } else {
        match ids.last() {
            Some(id) => present_ids(ids.drop_last()).push(id),
            None => present_ids(ids.drop_last()),
        }
    }
}

/// The column order saved for the columns with ids `ids`: their ids
/// separated by `;`, columns without an id left out.
pub open spec fn column_order_text(ids: Seq<Option<Seq<char>>>) -> Seq<char> {
    join_with(present_ids(ids), ';')
}

fn id_chars(ids: &Vec<Option<String>>) -> (r: Vec<Option<Vec<char>>>)
    ensures
        r@.len() == ids@.len(),
        forall|i: int|
            0 <= i < r@.len() ==> match #[trigger] r@[i] {
                Some(c) => id_views(ids@)[i] == Some(c@),
                None => id_views(ids@)[i] is None,
            },
{
    let mut r: Vec<Option<Vec<char>>> = Vec::new();
    let mut i: usize = 0;
    while i < ids.len()
        invariant
            i <= ids.len(),
            r@.len() == i,
            forall|k: int|
                0 <= k < r@.len() ==> match #[trigger] r@[k] {
                    Some(c) => id_views(ids@)[k] == Some(c@),
                    None => id_views(ids@)[k] is None,
                },
        decreases ids.len() - i,
    {
        match &ids[i] {
            Some(id) => {
                r.push(Some(chars_of(id.as_str())));
            },
            None => {
                r.push(None);
            },
        }
        i = i + 1;
    }
    r
}

/// The new arrangement of the columns for the saved order `saved`: the
/// columns named in it first, in its order (each id places the first column
/// with that id not placed yet; unknown ids are skipped), then the others in
/// their current order. Positions refer to the current arrangement, whose
/// column ids are `ids`.
pub fn restore_column_order(saved: &str, ids: &Vec<Option<String>>) -> (r: Vec<usize>)
    ensures
        r@ == restored_column_order(saved@, id_views(ids@)),
{
    let ghost views = id_views(ids@);
    let saved_chars = chars_of(saved);
    let parts = split_chars(&saved_chars, ';');
    let ghost parts_spec = split_on(saved@, ';');
    let ids_c = id_chars(ids);
    let n = ids.len();
    let mut remaining: Vec<usize> = Vec::new();
    let mut i: usize = 0;
    while i < n
        invariant
            i <= n,
            remaining@ =~= all_positions(i as nat),
        decreases n - i,
    {
        remaining.push(i);
        i = i + 1;
    }
    let mut placed: Vec<usize> = Vec::new();
    let mut k: usize = 0;
    assert(parts_spec.skip(0) =~= parts_spec);
    assert(placed@ =~= Seq::<usize>::empty());
    while k < parts.len()
        invariant
            n == ids@.len(),
            views == id_views(ids@),
            parts@.len() == parts_spec.len(),
            forall|q: int| 0 <= q < parts@.len() ==> (#[trigger] parts@[q])@ == parts_spec[q],
            ids_c@.len() == n,
            forall|q: int|
                0 <= q < ids_c@.len() ==> match #[trigger] ids_c@[q] {
                    Some(c) => views[q] == Some(c@),
                    None => views[q] is None,
                },
            k <= parts@.len(),
            restore(parts_spec, views, Seq::empty(), all_positions(n as nat)) == restore(
                parts_spec.skip(k as int),
                views,
                placed@,
                remaining@,
            ),
        decreases parts@.len() - k,
    {
        let part = &parts[k];
        let ghost rem0 = remaining@;
        let ghost placed_before = placed@;
        let mut j: usize = 0;
        let mut found = false;
        while j < remaining.len() && !found
            invariant
                j <= remaining.len(),
                remaining@ == rem0,
                ids_c@.len() == views.len(),
                forall|q: int|
                    0 <= q < ids_c@.len() ==> match #[trigger] ids_c@[q] {
                        Some(c) => views[q] == Some(c@),
                        None => views[q] is None,
                    },
                found ==> j < remaining.len() && first_with_id(views, rem0, part@, 0) == Some(
                    j as nat,
                ),
                !found ==> first_with_id(views, rem0, part@, 0) == first_with_id(
                    views,
                    rem0,
                    part@,
                    j as nat,
                ),
            decreases remaining.len() - j + (if found {
                0int
            } else {
                1int
            }),
        {
            let pos = remaining[j];
            let hit = if pos < ids_c.len() {
                match &ids_c[pos] {
                    Some(c) => same_chars(c, part),
                    None => false,
                }
            } else {
                false
            };
            if hit {
                found = true;
            } else {
                j = j + 1;
            }
        }
        proof {
            assert(parts_spec.skip(k as int).drop_first() =~= parts_spec.skip(k + 1));
            assert(parts_spec.skip(k as int)[0] == parts_spec[k as int]);
            assert(part@ == parts_spec[k as int]);
        }
        if found {
            let pos = remaining.remove(j);
            placed.push(pos);
            assert(placed@ == placed_before.push(rem0[j as int]));
        }
        k = k + 1;
    }
    let mut t: usize = 0;
    let ghost placed0 = placed@;
    while t < remaining.len()
        invariant
            t <= remaining.len(),
            placed@ =~= placed0 + remaining@.take(t as int),
        decreases remaining.len() - t,
    {
        placed.push(remaining[t]);
        t = t + 1;
    }
    proof {
        assert(parts_spec.skip(k as int) =~= Seq::<Seq<char>>::empty());
        assert(remaining@.take(remaining@.len() as int) =~= remaining@);
    }
    placed
}

// ---------------------------------------------------------------------------
// Laws of the column order
// ---------------------------------------------------------------------------

proof fn lemma_first_with_id_some(
    ids: Seq<Option<Seq<char>>>,
    remaining: Seq<usize>,
    part: Seq<char>,
    from: nat,
)
    ensures
        match first_with_id(ids, remaining, part, from) {
            Some(j) => from <= j < remaining.len() && remaining[j as int] < ids.len() && ids[remaining[j as int] as int] == Some(part),
            None => true,
        },
    decreases remaining.len() - from,
{
    if from < remaining.len() {
        lemma_first_with_id_some(ids, remaining, part, from + 1);
    }
}

proof fn lemma_first_with_id_at(
    ids: Seq<Option<Seq<char>>>,
    remaining: Seq<usize>,
    part: Seq<char>,
    from: nat,
    m: nat,
)
    requires
        from <= m < remaining.len(),
        forall|idx: int|
            from <= idx < m ==> !(remaining[idx] < ids.len() && ids[remaining[idx] as int] == Some(
                part,
            )),
        remaining[m as int] < ids.len(),
        ids[remaining[m as int] as int] == Some(part),
    ensures
        first_with_id(ids, remaining, part, from) == Some(m),
    decreases m - from,
{
    if from < m {
        lemma_first_with_id_at(ids, remaining, part, from + 1, m);
    }
}

/// How the columns stand while the order is restored: placed and remaining
/// columns together hold each of the `n` positions once.
pub open spec fn positions_split(placed: Seq<usize>, remaining: Seq<usize>, n: nat) -> bool {
    &&& placed.no_duplicates()
    &&& remaining.no_duplicates()
    &&& forall|a: int, b: int|
        0 <= a < placed.len() && 0 <= b < remaining.len() ==> placed[a] != remaining[b]
    &&& forall|x: usize| (placed.contains(x) || remaining.contains(x)) <==> x < n
    &&& placed.len() + remaining.len() == n
}

proof fn lemma_move_position(placed: Seq<usize>, remaining: Seq<usize>, n: nat, j: int)
    requires
        positions_split(placed, remaining, n),
        0 <= j < remaining.len(),
    ensures
        positions_split(placed.push(remaining[j]), remaining.remove(j), n),
{
    let x = remaining[j];
    let p2 = placed.push(x);
    let r2 = remaining.remove(j);
    assert forall|a: int, b: int| 0 <= a < p2.len() && 0 <= b < p2.len() && a != b implies p2[a]
        != p2[b] by {
        if a < placed.len() && b < placed.len() {
        } else if a < placed.len() {
            assert(p2[b] == x);
        } else if b < placed.len() {
            assert(p2[a] == x);
        }
    }
    assert forall|a: int, b: int| 0 <= a < r2.len() && 0 <= b < r2.len() && a != b implies r2[a]
        != r2[b] by {
        let a0 = if a < j { a } else { a + 1 };
        let b0 = if b < j { b } else { b + 1 };
        assert(r2[a] == remaining[a0]);
        assert(r2[b] == remaining[b0]);
    }
    assert forall|a: int, b: int| 0 <= a < p2.len() && 0 <= b < r2.len() implies p2[a]
        != r2[b] by {
        let b0 = if b < j { b } else { b + 1 };
        assert(r2[b] == remaining[b0]);
        if a == placed.len() {
            assert(p2[a] == remaining[j]);
        } else {
            assert(p2[a] == placed[a]);
        }
    }
    assert forall|y: usize| (p2.contains(y) || r2.contains(y)) <==> y < n by {
        if p2.contains(y) {
            let a = choose|a: int| 0 <= a < p2.len() && p2[a] == y;
            if a == placed.len() {
                assert(remaining.contains(y));
            } else {
                assert(placed[a] == y);
                assert(placed.contains(y));
            }
        }
        if r2.contains(y) {
            let b = choose|b: int| 0 <= b < r2.len() && r2[b] == y;
            let b0 = if b < j { b } else { b + 1 };
            assert(remaining[b0] == y);
            assert(remaining.contains(y));
        }
        if y < n {
            if placed.contains(y) {
                let a = choose|a: int| 0 <= a < placed.len() && placed[a] == y;
                assert(p2[a] == y);
            } else {
                assert(remaining.contains(y));
                let b = choose|b: int| 0 <= b < remaining.len() && remaining[b] == y;
                if b == j {
                    assert(p2[placed.len() as int] == y);
                } else if b < j {
                    assert(r2[b] == y);
                } else {
                    assert(r2[b - 1] == y);
                }
            }
        }
    }
}

proof fn lemma_restore_keeps_positions(
    parts: Seq<Seq<char>>,
    ids: Seq<Option<Seq<char>>>,
    placed: Seq<usize>,
    remaining: Seq<usize>,
    n: nat,
)
    requires
        positions_split(placed, remaining, n),
    ensures
        restore(parts, ids, placed, remaining).len() == n,
        restore(parts, ids, placed, remaining).no_duplicates(),
        forall|x: usize| restore(parts, ids, placed, remaining).contains(x) <==> x < n,
    decreases parts.len(),
{
    if parts.len() == 0 {
        let r = placed + remaining;
        assert forall|a: int, b: int| 0 <= a < r.len() && 0 <= b < r.len() && a != b implies r[a]
            != r[b] by {
            if a < placed.len() && b >= placed.len() {
                assert(r[b] == remaining[b - placed.len()]);
            } else if a >= placed.len() && b < placed.len() {
                assert(r[a] == remaining[a - placed.len()]);
            } else if a >= placed.len() {
                assert(r[a] == remaining[a - placed.len()]);
                assert(r[b] == remaining[b - placed.len()]);
            }
        }
        assert forall|x: usize| r.contains(x) <==> x < n by {
            if r.contains(x) {
                let a = choose|a: int| 0 <= a < r.len() && r[a] == x;
                if a < placed.len() {
                    assert(placed.contains(x));
                } else {
                    assert(remaining[a - placed.len()] == x);
                    assert(remaining.contains(x));
                }
            }
            if x < n {
                if placed.contains(x) {
                    let a = choose|a: int| 0 <= a < placed.len() && placed[a] == x;
                    assert(r[a] == x);
                } else {
                    let b = choose|b: int| 0 <= b < remaining.len() && remaining[b] == x;
                    assert(r[b + placed.len()] == x);
                }
            }
        }
    } else {
        lemma_first_with_id_some(ids, remaining, parts[0], 0);
        match first_with_id(ids, remaining, parts[0], 0) {
            Some(j) => {
                lemma_move_position(placed, remaining, n, j as int);
                lemma_restore_keeps_positions(
                    parts.drop_first(),
                    ids,
                    placed.push(remaining[j as int]),
                    remaining.remove(j as int),
                    n,
                );
            },
            None => {
                lemma_restore_keeps_positions(parts.drop_first(), ids, placed, remaining, n);
            },
        }
    }
}

/// Restoring a saved column order only rearranges the columns: every saved
/// text gives an arrangement that holds each current position exactly once.
pub proof fn lemma_restored_order_is_permutation(saved: Seq<char>, ids: Seq<Option<Seq<char>>>)
    requires
        ids.len() <= usize::MAX,
    ensures
        restored_column_order(saved, ids).len() == ids.len(),
        restored_column_order(saved, ids).no_duplicates(),
        forall|x: usize| restored_column_order(saved, ids).contains(x) <==> x < ids.len(),
{
    let n = ids.len();
    let all = all_positions(n);
    assert forall|x: usize| (Seq::<usize>::empty().contains(x) || all.contains(x)) <==> x < n by {
        if x < n {
            assert(all[x as int] == x);
        }
    }
    assert forall|a: int, b: int| 0 <= a < all.len() && 0 <= b < all.len() && a != b implies all[a]
        != all[b] by {
        assert(all[a] == a as usize);
        assert(all[b] == b as usize);
    }
    assert(Seq::<usize>::empty().no_duplicates());
    lemma_restore_keeps_positions(split_on(saved, ';'), ids, Seq::empty(), all, n);
}

proof fn lemma_present_all(ids: Seq<Option<Seq<char>>>)
    requires
        forall|i: int| 0 <= i < ids.len() ==> (#[trigger] ids[i]) is Some,
    ensures
        present_ids(ids).len() == ids.len(),
        forall|i: int| 0 <= i < ids.len() ==> present_ids(ids)[i] == ids[i]->0,
    decreases ids.len(),
{
    if ids.len() > 0 {
        let init = ids.drop_last();
        assert forall|i: int| 0 <= i < init.len() implies (#[trigger] init[i]) is Some by {
            assert(init[i] == ids[i]);
        }
        lemma_present_all(init);
        assert(ids.last() == ids[ids.len() - 1]);
    }
}

proof fn lemma_restore_exact(
    parts: Seq<Seq<char>>,
    ids: Seq<Option<Seq<char>>>,
    p: Seq<usize>,
    k: int,
    placed: Seq<usize>,
    remaining: Seq<usize>,
)
    requires
        forall|i: int| 0 <= i < ids.len() ==> (#[trigger] ids[i]) is Some,
        forall|i: int, j: int| 0 <= i < ids.len() && 0 <= j < ids.len() && i != j ==> ids[i] != ids[j],
        p.no_duplicates(),
        forall|q: int| 0 <= q < p.len() ==> p[q] < ids.len(),
        0 <= k <= p.len(),
        parts.len() == p.len() - k,
        forall|q: int| 0 <= q < parts.len() ==> Some(#[trigger] parts[q]) == ids[p[k + q] as int],
        placed == p.take(k),
        remaining.no_duplicates(),
        forall|x: usize| remaining.contains(x) <==> p.skip(k).contains(x),
    ensures
        restore(parts, ids, placed, remaining) == p,
    decreases parts.len(),
{
    if parts.len() == 0 {
        if remaining.len() > 0 {
            assert(remaining.contains(remaining[0]));
            assert(p.skip(k).len() == 0);
        }
        assert(remaining =~= Seq::<usize>::empty());
        assert(p.take(k) =~= p);
        assert(placed + remaining =~= p);
    } else {
        let target = p[k];
        assert(p.skip(k)[0] == target);
        assert(remaining.contains(target));
        let m = choose|m: int| 0 <= m < remaining.len() && remaining[m] == target;
        assert forall|idx: int| 0 <= idx < m implies !(remaining[idx] < ids.len()
            && ids[remaining[idx] as int] == Some(parts[0])) by {
            assert(remaining[idx] != target);
            if remaining[idx] < ids.len() && ids[remaining[idx] as int] == Some(parts[0]) {
                assert(ids[target as int] == Some(parts[0]));
            }
        }
        lemma_first_with_id_at(ids, remaining, parts[0], 0, m as nat);
        let r2 = remaining.remove(m);
        assert forall|a: int, b: int| 0 <= a < r2.len() && 0 <= b < r2.len() && a != b implies r2[a]
            != r2[b] by {
            let a0 = if a < m { a } else { a + 1 };
            let b0 = if b < m { b } else { b + 1 };
            assert(r2[a] == remaining[a0]);
            assert(r2[b] == remaining[b0]);
        }
        assert forall|x: usize| r2.contains(x) <==> p.skip(k + 1).contains(x) by {
            if r2.contains(x) {
                let b = choose|b: int| 0 <= b < r2.len() && r2[b] == x;
                let b0 = if b < m { b } else { b + 1 };
                assert(remaining[b0] == x);
                assert(remaining.contains(x));
                assert(x != target);
                let from_k = p.skip(k);
                let c = choose|c: int| 0 <= c < from_k.len() && from_k[c] == x;
                assert(c != 0);
                assert(p.skip(k + 1)[c - 1] == x);
            }
            if p.skip(k + 1).contains(x) {
                let tail = p.skip(k + 1);
                let c = choose|c: int| 0 <= c < tail.len() && tail[c] == x;
                assert(p[k + 1 + c] == x);
                assert(p.skip(k)[c + 1] == x);
                assert(x != target);
                assert(remaining.contains(x));
                let b = choose|b: int| 0 <= b < remaining.len() && remaining[b] == x;
                assert(b != m);
                if b < m {
                    assert(r2[b] == x);
                } else {
                    assert(r2[b - 1] == x);
                }
            }
        }
        assert(p.take(k).push(target) =~= p.take(k + 1));
        assert forall|q: int| 0 <= q < parts.drop_first().len() implies Some(
            #[trigger] parts.drop_first()[q],
        ) == ids[p[k + 1 + q] as int] by {
            assert(parts.drop_first()[q] == parts[q + 1]);
        }
        lemma_restore_exact(parts.drop_first(), ids, p, k + 1, p.take(k + 1), r2);
    }
}

/// The ids of the columns arranged as `p` says: `p[k]` is the current
/// position of the column that comes `k`-th.
pub open spec fn rearranged(ids: Seq<Option<Seq<char>>>, p: Seq<usize>) -> Seq<Option<Seq<char>>> {
    Seq::new(p.len(), |k: int| ids[p[k] as int])
}

/// What a saved column order gives back: when the columns have distinct ids
/// free of `;`, saving the order of any rearrangement `p` of them and
/// restoring it from their current arrangement yields `p`.
pub proof fn lemma_column_order_round_trip(ids: Seq<Option<Seq<char>>>, p: Seq<usize>)
    requires
        forall|i: int|
            0 <= i < ids.len() ==> (#[trigger] ids[i]) is Some && !ids[i]->0.contains(';'),
        forall|i: int, j: int| 0 <= i < ids.len() && 0 <= j < ids.len() && i != j ==> ids[i] != ids[j],
        p.len() == ids.len(),
        p.no_duplicates(),
        forall|q: int| 0 <= q < p.len() ==> p[q] < ids.len(),
        ids.len() <= usize::MAX,
    ensures
        restored_column_order(column_order_text(rearranged(ids, p)), ids) == p,
{
    let n = ids.len();
    let pm = rearranged(ids, p);
    assert forall|i: int| 0 <= i < pm.len() implies (#[trigger] pm[i]) is Some by {
        assert(ids[p[i] as int] is Some);
    }
    lemma_present_all(pm);
    let xs = present_ids(pm);
    let all = all_positions(n);
    assert forall|x: usize| all.contains(x) <==> p.skip(0).contains(x) by {
        assert(p.skip(0) =~= p);
        if x < n {
            // every position occurs in `p`: `p` is injective into `0..n`
            lemma_injective_covers(p, n, x);
        }
        if all.contains(x) {
            let a = choose|a: int| 0 <= a < all.len() && all[a] == x;
        }
        if p.contains(x) {
            let a = choose|a: int| 0 <= a < p.len() && p[a] == x;
            assert(all[x as int] == x);
        }
    }
    assert forall|a: int, b: int| 0 <= a < all.len() && 0 <= b < all.len() && a != b implies all[a]
        != all[b] by {
        assert(all[a] == a as usize);
        assert(all[b] == b as usize);
    }
    if n == 0 {
        assert(xs.len() == 0);
        assert(join_with(xs, ';') =~= Seq::<char>::empty());
        assert(split_on(Seq::<char>::empty(), ';') == seq![Seq::<char>::empty()]);
        let parts = split_on(join_with(xs, ';'), ';');
        assert(first_with_id(ids, all, parts[0], 0) is None);
        assert(parts.drop_first() =~= Seq::<Seq<char>>::empty());
        assert(all =~= Seq::<usize>::empty());
        assert(p =~= Seq::<usize>::empty());
        assert(restore(parts.drop_first(), ids, Seq::empty(), all) =~= p);
        assert(restore(parts, ids, Seq::empty(), all) == p);
        assert(column_order_text(pm) == join_with(xs, ';'));
        assert(restored_column_order(column_order_text(pm), ids) == p);
    } else {
        assert forall|i: int| 0 <= i < xs.len() implies !(#[trigger] xs[i]).contains(';') by {
            assert(xs[i] == pm[i]->0);
            assert(pm[i] == ids[p[i] as int]);
        }
        lemma_split_join(xs, ';');
        assert forall|q: int| 0 <= q < xs.len() implies Some(#[trigger] xs[q]) == ids[p[0 + q] as int] by {
            assert(xs[q] == pm[q]->0);
        }
        assert(p.take(0) =~= Seq::<usize>::empty());
        lemma_restore_exact(xs, ids, p, 0, Seq::empty(), all);
        assert(restore(xs, ids, Seq::empty(), all) == p);
        assert(column_order_text(pm) == join_with(xs, ';'));
        assert(restored_column_order(column_order_text(pm), ids) == p);
    }
}

/// An injective sequence of `n` positions below `n` holds every position
/// below `n`.
proof fn lemma_injective_covers(p: Seq<usize>, n: nat, x: usize)
    requires
        n <= usize::MAX,
        p.len() == n,
        p.no_duplicates(),
        forall|q: int| 0 <= q < p.len() ==> p[q] < n,
        x < n,
    ensures
        p.contains(x),
{
    if !p.contains(x) {
        // `p` maps `n` indices injectively into the `n - 1` positions other than `x`
        let s = p.to_set();
        p.unique_seq_to_set();
        assert(s.len() == n);
        let full = Set::new(|y: usize| y < n && y != x);
        assert(s.subset_of(full)) by {
            assert forall|y: usize| s.contains(y) implies full.contains(y) by {
                let a = choose|a: int| 0 <= a < p.len() && p[a] == y;
            }
        }
        lemma_positions_set_len(n, x);
        vstd::set_lib::lemma_len_subset(s, full);
    }
}

/// The positions below `n` other than `x` are `n - 1` many.
proof fn lemma_positions_set_len(n: nat, x: usize)
    requires
        n <= usize::MAX,
        x < n,
    ensures
        Set::new(|y: usize| y < n && y != x).finite(),
        Set::new(|y: usize| y < n && y != x).len() == n - 1,
{
    let below = Set::new(|y: usize| y < n);
    lemma_usize_range_len(n);
    assert(Set::new(|y: usize| y < n && y != x) =~= below.remove(x));
}

proof fn lemma_usize_range_len(n: nat)
    requires
        n <= usize::MAX + 1,
    ensures
        Set::new(|y: usize| y < n).finite(),
        Set::new(|y: usize| y < n).len() == n,
    decreases n,
{
    if n == 0 {
        assert(Set::new(|y: usize| y < n) =~= Set::<usize>::empty());
    } else {
        lemma_usize_range_len((n - 1) as nat);
        let last = (n - 1) as usize;
        assert(Set::new(|y: usize| y < n) =~= Set::new(|y: usize| y < (n - 1) as nat).insert(last));
    }
}

/// The text saved for the column order: the ids of the columns that have
/// one, in order, separated by `;`.
pub fn column_order_string(ids: &Vec<Option<String>>) -> (r: String)
    ensures
        r@ == column_order_text(id_views(ids@)),
{
    let ghost views = id_views(ids@);
    let mut order: Vec<char> = Vec::new();
    let mut any = false;
    let mut i: usize = 0;
    while i < ids.len()
        invariant
            i <= ids.len(),
            views == id_views(ids@),
            order@ == join_with(present_ids(views.take(i as int)), ';'),
            any == (present_ids(views.take(i as int)).len() > 0),
        decreases ids.len() - i,
    {
        let ghost before = present_ids(views.take(i as int));
        proof {
            assert(views.take(i + 1).drop_last() =~= views.take(i as int));
            assert(views.take(i + 1).last() == views[i as int]);
        }
        match &ids[i] {
            Some(id) => {
                let cs = chars_of(id.as_str());
                if any {
                    order.push(';');
                }
                let mut k: usize = 0;
                let ghost base = order@;
                while k < cs.len()
                    invariant
                        k <= cs.len(),
                        order@ == base + cs@.take(k as int),
                    decreases cs.len() - k,
                {
                    order.push(cs[k]);
                    k = k + 1;
                    assert(order@ =~= base + cs@.take(k as int));
                }
                proof {
                    assert(cs@.take(cs.len() as int) =~= cs@);
                    let after = before.push(id@);
                    assert(present_ids(views.take(i + 1)) == after);
                    assert(after.drop_last() =~= before);
                    if before.len() == 0 {
                        assert(order@ =~= id@);
                    }
                }
                any = true;
            },
            None => {},
        }
        i = i + 1;
    }
    proof {
        assert(views.take(ids.len() as int) =~= views);
    }
    string_from_chars(&order)
}

/// The position of the first column whose id is `id`.
pub fn find_column(ids: &Vec<Option<String>>, id: &str) -> (r: Option<usize>)
    ensures
        match r {
            Some(i) => i < ids.len() && id_views(ids@)[i as int] == Some(id@) && forall|j: int|
                0 <= j < i ==> id_views(ids@)[j] != Some(id@),
            None => forall|j: int| 0 <= j < ids.len() ==> id_views(ids@)[j] != Some(id@),
        },
{
    let target = chars_of(id);
    let mut i: usize = 0;
    while i < ids.len()
        invariant
            i <= ids.len(),
            target@ == id@,
            forall|j: int| 0 <= j < i ==> id_views(ids@)[j] != Some(id@),
        decreases ids.len() - i,
    {
        match &ids[i] {
            Some(c) => {
                let cs = chars_of(c.as_str());
                if same_chars(&cs, &target) {
                    return Some(i);
                }
            },
            None => {},
        }
        i = i + 1;
    }
    None
}

// ---------------------------------------------------------------------------
// Sorting order
// ---------------------------------------------------------------------------

/// The direction a column is sorted in.
#[derive(Clone, Copy, PartialEq, Eq, Structural, Debug)]
pub enum SortDirection {
    Ascending,
    Descending,
    /// A direction outside the two known ones.
    Other,
}

/// What the saved sorting order asks for.
#[derive(Clone, Copy, PartialEq, Eq, Structural, Debug)]
pub enum SavedSortOrder {
    Ascending,
    Descending,
    /// Nothing to restore (the value 255).
    Unset,
    /// An unknown value: sorted ascending, with a complaint.
    Unknown,
}

/// The saved value for an ascending sort.
pub const SORT_ASCENDING: i32 = 0;

/// The saved value for a descending sort.
pub const SORT_DESCENDING: i32 = 1;

/// The value that stands for no saved sorting order.
pub const SORT_UNSET: i32 = 255;

/// The value saved for a sorting direction; one outside the known ones is
/// saved as ascending.
pub fn sort_order_setting(direction: SortDirection) -> (r: i32)
    ensures
        r == sort_order_setting_spec(direction),
{
    match direction {
        SortDirection::Ascending => SORT_ASCENDING,
        SortDirection::Descending => SORT_DESCENDING,
        SortDirection::Other => SORT_ASCENDING,
    }
}

/// What a saved sorting order value asks for.
pub fn saved_sort_order(value: i32) -> (r: SavedSortOrder)
    ensures
        r == saved_sort_order_spec(value),
{
    if value == SORT_ASCENDING {
        SavedSortOrder::Ascending
    } else if value == SORT_DESCENDING {
        SavedSortOrder::Descending
    } else if value == SORT_UNSET {
        SavedSortOrder::Unset
    } else {
        SavedSortOrder::Unknown
    }
}

pub open spec fn saved_sort_order_spec(value: i32) -> SavedSortOrder {
    if value == SORT_ASCENDING {
        SavedSortOrder::Ascending
    } else if value == SORT_DESCENDING {
        SavedSortOrder::Descending
    } else if value == SORT_UNSET {
        SavedSortOrder::Unset
    } else {
        SavedSortOrder::Unknown
    }
}

pub open spec fn sort_order_setting_spec(direction: SortDirection) -> i32 {
    if direction == SortDirection::Descending {
        SORT_DESCENDING
    } else {
        SORT_ASCENDING
    }
}

/// A saved sorting direction is read back as the same direction.
pub proof fn lemma_sort_order_round_trip(direction: SortDirection)
    ensures
        saved_sort_order_spec(sort_order_setting_spec(direction)) == match direction {
            SortDirection::Descending => SavedSortOrder::Descending,
            _ => SavedSortOrder::Ascending,
        },
{
}

} // verus!
