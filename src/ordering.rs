//! Facts about the block transformer and the line writer that hold of every
//! outcome of a pass.
use vstd::prelude::*;
use vstd::multiset::Multiset;
use vstd::relations::{sorted_by, total_ordering};
use vstd::seq_lib::{lemma_multiset_commutative, lemma_sorted_unique};

use crate::extractor::{Pixel, RgbSorter};
use crate::sort::{
    blocks_reordered, block_count, gathered, inner_limit, keys_ascending, line_done, line_of,
    line_sorted, outer_limit, reordered, sorter_of, step_of, supported, window, written_line,
    ImageView, SortOptions,
};

verus! {

/// The keys of a sequence of pixels.
pub open spec fn keys(s: Seq<Pixel>, sorter: RgbSorter) -> Seq<u8> {
    s.map_values(|p: Pixel| sorter.key_of(p))
}

proof fn lemma_keys_multiset(a: Seq<Pixel>, b: Seq<Pixel>, sorter: RgbSorter)
    requires
        a.to_multiset() == b.to_multiset(),
    ensures
        keys(a, sorter).to_multiset() == keys(b, sorter).to_multiset(),
    decreases a.len(),
{
    broadcast use vstd::seq_lib::group_to_multiset_ensures;

    vstd::seq_lib::to_multiset_len(a);
    vstd::seq_lib::to_multiset_len(b);
    if a.len() == 0 {
        assert(b.len() == 0);
        assert(keys(a, sorter) =~= keys(b, sorter));
    } else {
        let x = a.last();
        assert(a.to_multiset().count(x) > 0) by {
            assert(a.contains(x)) by {
                assert(a[a.len() - 1] == x);
            }
        }
        assert(b.contains(x));
        let i = choose|i: int| 0 <= i < b.len() && b[i] == x;
        let a2 = a.drop_last();
        let b2 = b.remove(i);
        assert(a2.to_multiset() == a.to_multiset().remove(x)) by {
            vstd::seq_lib::to_multiset_remove(a, a.len() - 1);
            assert(a.remove(a.len() - 1) =~= a2);
        }
        vstd::seq_lib::to_multiset_remove(b, i);
        lemma_keys_multiset(a2, b2, sorter);
        let ka = keys(a, sorter);
        let kb = keys(b, sorter);
        vstd::seq_lib::to_multiset_remove(ka, ka.len() - 1);
        assert(ka.remove(ka.len() - 1) =~= keys(a2, sorter));
        vstd::seq_lib::to_multiset_remove(kb, i);
        assert(kb.remove(i) =~= keys(b2, sorter));
        assert(ka.to_multiset().count(sorter.key_of(x)) > 0) by {
            assert(ka[ka.len() - 1] == sorter.key_of(x));
        }
        assert(kb.to_multiset().count(sorter.key_of(x)) > 0) by {
            assert(kb[i] == sorter.key_of(x));
        }
        assert(ka.to_multiset() =~= kb.to_multiset()) by {
            assert(ka.to_multiset() =~= keys(a2, sorter).to_multiset().insert(sorter.key_of(x)));
            assert(kb.to_multiset() =~= keys(b2, sorter).to_multiset().insert(sorter.key_of(x)));
        }
    }
}

/// Sorting a block ascending and then sorting the result again with `reverse`
/// set yields, read backwards, the ascending key order again.
pub proof fn lemma_reverse_sort_restores_ascending(
    block: Seq<Pixel>,
    ascending: Seq<Pixel>,
    descending: Seq<Pixel>,
    sorter: RgbSorter,
)
    requires
        reordered(block, ascending, sorter, false, false),
        reordered(ascending, descending, sorter, true, false),
    ensures
        keys(descending.reverse(), sorter) == keys(ascending, sorter),
{
    let back = descending.reverse();
    descending.lemma_reverse_to_multiset();
    lemma_keys_multiset(back, ascending, sorter);
    let leq = |a: u8, b: u8| a <= b;
    assert(total_ordering(leq));
    assert(sorted_by(keys(back, sorter), leq)) by {
        assert forall|i: int, j: int| 0 <= i < j < back.len() implies #[trigger] leq(
            keys(back, sorter)[i],
            keys(back, sorter)[j],
        ) by {
            assert(back[i] == descending[descending.len() - 1 - i]);
            assert(back[j] == descending[descending.len() - 1 - j]);
        }
    }
    assert(sorted_by(keys(ascending, sorter), leq)) by {
        assert(keys_ascending(ascending, sorter));
    }
    lemma_sorted_unique(keys(back, sorter), keys(ascending, sorter), leq);
}

proof fn lemma_flatten_multiset(xs: Seq<Seq<Pixel>>, ys: Seq<Seq<Pixel>>)
    requires
        xs.len() == ys.len(),
        forall|b: int| 0 <= b < xs.len() ==> #[trigger] xs[b].to_multiset() == ys[b].to_multiset(),
    ensures
        xs.flatten().to_multiset() == ys.flatten().to_multiset(),
    decreases xs.len(),
{
    if xs.len() > 0 {
        let n = xs.len() - 1;
        lemma_flatten_multiset(xs.drop_last(), ys.drop_last());
        assert(xs.drop_last().push(xs[n]) =~= xs);
        assert(ys.drop_last().push(ys[n]) =~= ys);
        xs.drop_last().lemma_flatten_push(xs[n]);
        ys.drop_last().lemma_flatten_push(ys[n]);
        lemma_multiset_commutative(xs.drop_last().flatten(), xs[n]);
        lemma_multiset_commutative(ys.drop_last().flatten(), ys[n]);
    }
}

proof fn lemma_tiles_flatten(line: Seq<Pixel>, step: int, b: int)
    requires
        step >= 1,
        b >= 0,
        b * step <= line.len(),
    ensures
        Seq::new(b as nat, |k: int| window(line, k * step, step as nat)).flatten() =~= line.take(
            b * step,
        ),
    decreases b,
{
    let tiles = Seq::new(b as nat, |k: int| window(line, k * step, step as nat));
    if b > 0 {
        let p = b - 1;
        assert(p * step + step == b * step && 0 <= p * step) by (nonlinear_arith)
            requires
                p == b - 1,
                p >= 0,
                step >= 1,
        ;
        lemma_tiles_flatten(line, step, p);
        let prev = Seq::new(p as nat, |k: int| window(line, k * step, step as nat));
        assert(tiles.drop_last() =~= prev);
        assert(prev.push(tiles[p]) =~= tiles);
        prev.lemma_flatten_push(tiles[p]);
        assert(window(line, p * step, step as nat) =~= line.subrange(p * step, b * step));
        assert(line.take(p * step) + line.subrange(p * step, b * step) =~= line.take(b * step));
        assert(tiles.flatten() == prev.flatten() + tiles[p]);
    } else {
        assert(tiles =~= Seq::<Seq<Pixel>>::empty());
        assert(b * step == 0) by (nonlinear_arith)
            requires
                b == 0,
        ;
        assert(line.take(0) =~= Seq::<Pixel>::empty());
    }
}

/// When the windows tile a line exactly (their width equal to the step, and
/// the step dividing the line's length), sorting the line only permutes its
/// pixels: none is duplicated or lost.
pub proof fn lemma_tiled_line_is_permutation(
    before: Seq<Pixel>,
    after: Seq<Pixel>,
    step: nat,
    options: SortOptions,
)
    requires
        step >= 1,
        options.discretize == step,
        (before.len() as int) % (step as int) == 0,
        line_sorted(before, after, step, options),
    ensures
        after.to_multiset() == before.to_multiset(),
{
    broadcast use vstd::seq_lib::group_to_multiset_ensures;

    let sorter = crate::sort::sorter_of(options);
    let windows = gathered(before, step, step);
    let blocks = choose|blocks: Seq<Seq<Pixel>>|
        #[trigger] blocks_reordered(
            windows,
            blocks,
            sorter,
            options.reverse,
            options.shuffle,
        ) && after == written_line(before, blocks.flatten());
    let n: int = before.len() as int;
    let st: int = step as int;
    let m = n / st;
    vstd::arithmetic::div_mod::lemma_fundamental_div_mod(n as int, step as int);
    assert(m * st == n) by (nonlinear_arith)
        requires
            n == st * m + n % st,
            n % st == 0,
    ;
    if n > 0 {
        assert(block_count(before.len(), step) == m) by {
            let x = n - 1;
            vstd::arithmetic::div_mod::lemma_fundamental_div_mod(x, step as int);
            vstd::arithmetic::div_mod::lemma_mod_bound(x, step as int);
            assert(x / st == m - 1) by (nonlinear_arith)
                requires
                    x == st * (x / st) + x % st,
                    0 <= x % st < st,
                    x == m * st - 1,
                    st > 0,
            ;
        }
    }
    assert(m >= 0) by (nonlinear_arith)
        requires
            m * st == n,
            st >= 1,
            n >= 0,
    ;
    assert(windows =~= Seq::new(m as nat, |k: int| window(before, k * st, step)));
    lemma_tiles_flatten(before, st, m);
    assert(before.take(n) =~= before);
    assert forall|b: int| 0 <= b < windows.len() implies #[trigger] blocks[b].to_multiset()
        == windows[b].to_multiset() by {
        assert(reordered(windows[b], blocks[b], sorter, options.reverse, options.shuffle));
    }
    lemma_flatten_multiset(blocks, windows);
    let joined = blocks.flatten();
    assert(joined.len() == n) by {
        vstd::seq_lib::to_multiset_len(joined);
        vstd::seq_lib::to_multiset_len(before);
    }
    assert(after =~= joined);
}

/// Row `y` of an image, cut to its first `m` pixels.
pub open spec fn row_part(img: ImageView, y: int, m: nat) -> Seq<Pixel> {
    Seq::new(m, |x: int| img.at(x, y))
}

/// Column `x` of an image, cut to its first `k` pixels.
pub open spec fn col_part(img: ImageView, x: int, k: nat) -> Seq<Pixel> {
    Seq::new(k, |y: int| img.at(x, y))
}

/// The pixels of the first `k` rows, each cut to `m` pixels.
pub open spec fn rows_sum(img: ImageView, k: nat, m: nat) -> Multiset<Pixel>
    decreases k,
{
    if k == 0 {
        Multiset::empty()
    } else {
        rows_sum(img, (k - 1) as nat, m).add(row_part(img, k - 1, m).to_multiset())
    }
}

/// The pixels of the first `m` columns, each cut to `k` pixels.
pub open spec fn cols_sum(img: ImageView, m: nat, k: nat) -> Multiset<Pixel>
    decreases m,
{
    if m == 0 {
        Multiset::empty()
    } else {
        cols_sum(img, (m - 1) as nat, k).add(col_part(img, m - 1, k).to_multiset())
    }
}

proof fn lemma_empty_multiset(s: Seq<Pixel>)
    requires
        s.len() == 0,
    ensures
        s.to_multiset() =~= Multiset::<Pixel>::empty(),
{
    vstd::seq_lib::to_multiset_len(s);
    vstd::multiset::lemma_multiset_empty_len(s.to_multiset());
}

proof fn lemma_cols_empty(img: ImageView, m: nat)
    ensures
        cols_sum(img, m, 0) =~= Multiset::<Pixel>::empty(),
    decreases m,
{
    broadcast use vstd::multiset::group_multiset_axioms;

    if m > 0 {
        lemma_cols_empty(img, (m - 1) as nat);
        lemma_empty_multiset(col_part(img, m - 1, 0));
    }
}

proof fn lemma_cols_grow(img: ImageView, m: nat, k: nat)
    ensures
        cols_sum(img, m, k + 1) =~= cols_sum(img, m, k).add(row_part(img, k as int, m).to_multiset()),
    decreases m,
{
    broadcast use vstd::multiset::group_multiset_axioms;
    broadcast use vstd::seq_lib::group_to_multiset_ensures;

    if m == 0 {
        assert(row_part(img, k as int, 0) =~= Seq::<Pixel>::empty());
    } else {
        let x = m - 1;
        lemma_cols_grow(img, x as nat, k);
        assert(col_part(img, x, k + 1) =~= col_part(img, x, k).push(img.at(x, k as int)));
        assert(row_part(img, k as int, m) =~= row_part(img, k as int, x as nat).push(
            img.at(x, k as int),
        ));
    }
}

proof fn lemma_rows_are_cols(img: ImageView, k: nat, m: nat)
    ensures
        rows_sum(img, k, m) == cols_sum(img, m, k),
    decreases k,
{
    if k == 0 {
        lemma_cols_empty(img, m);
    } else {
        lemma_rows_are_cols(img, (k - 1) as nat, m);
        lemma_cols_grow(img, m, (k - 1) as nat);
    }
}

proof fn lemma_pixels_are_rows(img: ImageView, k: nat)
    requires
        img.pixels.len() == img.width * img.height,
        k <= img.height,
    ensures
        img.pixels.take((k * img.width) as int).to_multiset() == rows_sum(img, k, img.width),
    decreases k,
{
    broadcast use vstd::multiset::group_multiset_axioms;

    let w = img.width;
    if k == 0 {
        assert(k * w == 0) by (nonlinear_arith)
            requires
                k == 0,
        ;
        lemma_empty_multiset(img.pixels.take(0));
    } else {
        let y = (k - 1) as nat;
        lemma_pixels_are_rows(img, y);
        assert(y * w + w == k * w && k * w <= img.width * img.height && 0 <= y * w) by (
        nonlinear_arith)
            requires
                y == k - 1,
                k <= img.height,
                w == img.width,
        ;
        assert(img.pixels.take((k * w) as int) =~= img.pixels.take((y * w) as int) + row_part(img, y as int, w));
        lemma_multiset_commutative(img.pixels.take((y * w) as int), row_part(img, y as int, w));
    }
}

proof fn lemma_rows_sum_equal(before: ImageView, after: ImageView, k: nat, m: nat)
    requires
        forall|y: int|
            0 <= y < k ==> #[trigger] row_part(after, y, m).to_multiset() == row_part(
                before,
                y,
                m,
            ).to_multiset(),
    ensures
        rows_sum(after, k, m) == rows_sum(before, k, m),
    decreases k,
{
    if k > 0 {
        lemma_rows_sum_equal(before, after, (k - 1) as nat, m);
        assert(row_part(after, k - 1, m).to_multiset() == row_part(before, k - 1, m).to_multiset());
    }
}

proof fn lemma_cols_sum_equal(before: ImageView, after: ImageView, m: nat, k: nat)
    requires
        forall|x: int|
            0 <= x < m ==> #[trigger] col_part(after, x, k).to_multiset() == col_part(
                before,
                x,
                k,
            ).to_multiset(),
    ensures
        cols_sum(after, m, k) == cols_sum(before, m, k),
    decreases m,
{
    if m > 0 {
        lemma_cols_sum_equal(before, after, (m - 1) as nat, k);
        assert(col_part(after, m - 1, k).to_multiset() == col_part(before, m - 1, k).to_multiset());
    }
}

/// Two images of the same size whose every line holds the same pixels, up to
/// order, hold the same pixels.
proof fn lemma_lines_to_image(before: ImageView, after: ImageView, dir: crate::cli::WalkPath)
    requires
        supported(dir),
        after.same_size(before),
        before.pixels.len() == before.width * before.height,
        after.pixels.len() == after.width * after.height,
        forall|o: int|
            0 <= o < outer_limit(before, dir) ==> #[trigger] line_of(after, dir, o).to_multiset()
                == line_of(before, dir, o).to_multiset(),
    ensures
        after.pixels.to_multiset() == before.pixels.to_multiset(),
{
    let (w, h) = (before.width, before.height);
    lemma_pixels_are_rows(before, h);
    lemma_pixels_are_rows(after, h);
    assert(h * w == w * h) by (nonlinear_arith);
    assert(before.pixels.take((h * w) as int) =~= before.pixels);
    assert(after.pixels.take((h * w) as int) =~= after.pixels);
    if dir is Vertical {
        assert forall|x: int| 0 <= x < w implies #[trigger] col_part(after, x, h).to_multiset()
            == col_part(before, x, h).to_multiset() by {
            assert(line_of(after, dir, x) =~= col_part(after, x, h));
            assert(line_of(before, dir, x) =~= col_part(before, x, h));
        }
        lemma_cols_sum_equal(before, after, w, h);
        lemma_rows_are_cols(before, h, w);
        lemma_rows_are_cols(after, h, w);
    } else {
        assert forall|y: int| 0 <= y < h implies #[trigger] row_part(after, y, w).to_multiset()
            == row_part(before, y, w).to_multiset() by {
            assert(line_of(after, dir, y) =~= row_part(after, y, w));
            assert(line_of(before, dir, y) =~= row_part(before, y, w));
        }
        lemma_rows_sum_equal(before, after, h, w);
    }
}

/// A sort pass whose windows tile every line exactly (the window width equal
/// to an interval that every line's step must take, and dividing the line
/// length) only permutes the pixels of the image: none is created,
/// duplicated or dropped.
pub proof fn lemma_tiled_pass_is_permutation(
    before: ImageView,
    after: ImageView,
    options: SortOptions,
)
    requires
        before.pixels.len() == before.width * before.height,
        after.pixels.len() == after.width * after.height,
        after.same_size(before),
        supported(options.direction),
        options.interval >= 1,
        options.discretize == options.interval,
        options.interval == 1 || (options.progressive_amount is Some
            && options.progressive_amount->Some_0 + 1 >= options.interval),
        (inner_limit(before, options.direction) as int) % (options.interval as int) == 0,
        forall|o: int|
            0 <= o < outer_limit(before, options.direction) ==> #[trigger] line_done(
                before,
                after,
                options,
                o,
            ),
    ensures
        after.pixels.to_multiset() == before.pixels.to_multiset(),
{
    let dir = options.direction;
    assert forall|o: int| 0 <= o < outer_limit(before, dir) implies #[trigger] line_of(
        after,
        dir,
        o,
    ).to_multiset() == line_of(before, dir, o).to_multiset() by {
        assert(line_done(before, after, options, o));
        let step = choose|step: nat|
            crate::sort::step_allowed(
                step as int,
                options.interval as int,
                options.progressive_amount,
                o,
            ) && #[trigger] line_sorted(
                line_of(before, dir, o),
                line_of(after, dir, o),
                step,
                options,
            );
        let base = choose|base: int|
            1 <= base <= options.interval && step == #[trigger] crate::sort::step_of(
                base,
                options.interval as int,
                options.progressive_amount,
                o,
            );
        assert(step == options.interval);
        lemma_tiled_line_is_permutation(line_of(before, dir, o), line_of(after, dir, o), step, options);
    }
    lemma_lines_to_image(before, after, dir);
}

/// Whether every step a pass with `options` may draw gathers a line of `n`
/// pixels as a single window: the window is the whole line, and the step,
/// held up by the progressive amount, is at least the line length.
pub open spec fn one_block_per_line(options: SortOptions, n: nat) -> bool {
    &&& options.discretize == n
    &&& options.interval >= n
    &&& options.progressive_amount matches Some(a) && a + 1 >= n
}

proof fn lemma_single_block(before: Seq<Pixel>, after: Seq<Pixel>, step: nat, options: SortOptions)
    requires
        options.discretize == before.len(),
        step >= before.len(),
        step >= 1,
        line_sorted(before, after, step, options),
    ensures
        reordered(before, after, sorter_of(options), options.reverse, options.shuffle),
{
    let sorter = sorter_of(options);
    let n = before.len();
    let windows = gathered(before, step, n);
    let blocks = choose|blocks: Seq<Seq<Pixel>>|
        #[trigger] blocks_reordered(
            windows,
            blocks,
            sorter,
            options.reverse,
            options.shuffle,
        ) && after == written_line(before, blocks.flatten());
    if n == 0 {
        assert(blocks.len() == 0);
        assert(blocks =~= Seq::<Seq<Pixel>>::empty());
        assert(after =~= before);
        broadcast use vstd::seq_lib::group_to_multiset_ensures;

        lemma_empty_multiset(after);
        lemma_empty_multiset(before);
    } else {
        assert((n - 1) / (step as int) == 0) by {
            vstd::arithmetic::div_mod::lemma_basic_div((n - 1) as int, step as int);
        }
        assert(windows.len() == 1);
        assert(windows[0] =~= before);
        assert(reordered(windows[0], blocks[0], sorter, options.reverse, options.shuffle));
        blocks.lemma_flatten_one_element();
        assert(after =~= blocks[0]);
    }
}

proof fn lemma_line_is_reordered(before: ImageView, after: ImageView, options: SortOptions, o: int)
    requires
        one_block_per_line(options, inner_limit(before, options.direction)),
        line_done(before, after, options, o),
        o >= 0,
    ensures
        reordered(
            line_of(before, options.direction, o),
            line_of(after, options.direction, o),
            sorter_of(options),
            options.reverse,
            options.shuffle,
        ),
{
    let dir = options.direction;
    let step = choose|step: nat|
        crate::sort::step_allowed(
            step as int,
            options.interval as int,
            options.progressive_amount,
            o,
        ) && #[trigger] line_sorted(line_of(before, dir, o), line_of(after, dir, o), step, options);
    let base = choose|base: int|
        1 <= base <= options.interval && step == #[trigger] step_of(
            base,
            options.interval as int,
            options.progressive_amount,
            o,
        );
    lemma_single_block(line_of(before, dir, o), line_of(after, dir, o), step, options);
}

proof fn lemma_same_ascending_keys(a: Seq<Pixel>, b: Seq<Pixel>, sorter: RgbSorter)
    requires
        keys_ascending(a, sorter),
        keys_ascending(b, sorter),
        a.to_multiset() == b.to_multiset(),
    ensures
        keys(a, sorter) == keys(b, sorter),
{
    lemma_keys_multiset(a, b, sorter);
    let leq = |x: u8, y: u8| x <= y;
    assert(total_ordering(leq));
    assert(sorted_by(keys(a, sorter), leq));
    assert(sorted_by(keys(b, sorter), leq));
    lemma_sorted_unique(keys(a, sorter), keys(b, sorter), leq);
}

/// Lines `l2` and `l3` after a descending and then an ascending pass over an
/// ascending-sorted line `l1`: `l2` is a permutation of `l1` whose keys, read
/// backwards, are those of `l1`, and `l3` has the keys of `l1`.
pub open spec fn reverse_composed(
    l1: Seq<Pixel>,
    l2: Seq<Pixel>,
    l3: Seq<Pixel>,
    sorter: RgbSorter,
) -> bool {
    &&& l2.to_multiset() == l1.to_multiset()
    &&& keys(l2.reverse(), sorter) == keys(l1, sorter)
    &&& keys(l3, sorter) == keys(l1, sorter)
}

/// Reverse composition of passes that sort each line as one block: after an
/// ascending pass (`first`), a pass with `reverse` set and otherwise the same
/// options (`second`) leaves every line a permutation of it whose keys, read
/// backwards, are the ascending keys again; and a further ascending pass
/// (`third`) restores the ascending key order of every line.
pub proof fn lemma_reverse_pass_restores_ascending(
    img0: ImageView,
    img1: ImageView,
    img2: ImageView,
    img3: ImageView,
    ascending: SortOptions,
    descending: SortOptions,
)
    requires
        img1.same_size(img0),
        img2.same_size(img0),
        supported(ascending.direction),
        descending.direction == ascending.direction,
        !ascending.reverse && !ascending.shuffle,
        descending.reverse && !descending.shuffle,
        sorter_of(descending) == sorter_of(ascending),
        descending.discretize == ascending.discretize,
        descending.interval == ascending.interval,
        descending.progressive_amount == ascending.progressive_amount,
        one_block_per_line(ascending, inner_limit(img0, ascending.direction)),
        forall|o: int|
            0 <= o < outer_limit(img0, ascending.direction) ==> #[trigger] line_done(
                img0,
                img1,
                ascending,
                o,
            ),
        forall|o: int|
            0 <= o < outer_limit(img0, ascending.direction) ==> #[trigger] line_done(
                img1,
                img2,
                descending,
                o,
            ),
        forall|o: int|
            0 <= o < outer_limit(img0, ascending.direction) ==> #[trigger] line_done(
                img2,
                img3,
                ascending,
                o,
            ),
    ensures
        forall|o: int|
            0 <= o < outer_limit(img0, ascending.direction) ==> #[trigger] reverse_composed(
                line_of(img1, ascending.direction, o),
                line_of(img2, ascending.direction, o),
                line_of(img3, ascending.direction, o),
                sorter_of(ascending),
            ),
{
    let dir = ascending.direction;
    let sorter = sorter_of(ascending);
    assert forall|o: int| 0 <= o < outer_limit(img0, dir) implies #[trigger] reverse_composed(
        line_of(img1, dir, o),
        line_of(img2, dir, o),
        line_of(img3, dir, o),
        sorter,
    ) by {
        let (l0, l1, l2, l3) = (
            line_of(img0, dir, o),
            line_of(img1, dir, o),
            line_of(img2, dir, o),
            line_of(img3, dir, o),
        );
        assert(line_done(img0, img1, ascending, o));
        assert(line_done(img1, img2, descending, o));
        assert(line_done(img2, img3, ascending, o));
        lemma_line_is_reordered(img0, img1, ascending, o);
        lemma_line_is_reordered(img1, img2, descending, o);
        lemma_line_is_reordered(img2, img3, ascending, o);
        lemma_reverse_sort_restores_ascending(l0, l1, l2, sorter);
        lemma_same_ascending_keys(l3, l1, sorter);
    }
}

proof fn lemma_constant_permutation(s: Seq<Pixel>, p: Pixel, n: nat)
    requires
        s.to_multiset() == Seq::new(n, |j: int| p).to_multiset(),
    ensures
        s =~= Seq::new(n, |j: int| p),
{
    broadcast use vstd::seq_lib::group_to_multiset_ensures;

    let c = Seq::new(n, |j: int| p);
    vstd::seq_lib::to_multiset_len(s);
    vstd::seq_lib::to_multiset_len(c);
    assert forall|j: int| 0 <= j < s.len() implies s[j] == p by {
        assert(s.contains(s[j]));
        vstd::seq_lib::to_multiset_contains(s, s[j]);
        vstd::seq_lib::to_multiset_contains(c, s[j]);
        assert(c.contains(s[j]));
        let i = choose|i: int| 0 <= i < c.len() && c[i] == s[j];
    }
}

/// The boundary clamp on a 4 × 1 image: with windows of 3 at every index,
/// the windows at 2 and 3 read past the end and clamp to index 3, whose
/// pixel the last write leaves as it was; indices 0 to 2 hold the first
/// window, reordered.
pub proof fn lemma_boundary_clamp(before: ImageView, after: ImageView, options: SortOptions)
    requires
        before.width == 4,
        before.height == 1,
        after.same_size(before),
        options.direction == crate::cli::WalkPath::Horizontal,
        options.discretize == 3,
        options.interval == 1,
        line_done(before, after, options, 0),
    ensures
        after.at(3, 0) == before.at(3, 0),
        reordered(
            Seq::new(3, |x: int| before.at(x, 0)),
            Seq::new(3, |x: int| after.at(x, 0)),
            sorter_of(options),
            options.reverse,
            options.shuffle,
        ),
{
    let dir = options.direction;
    let (l0, l1) = (line_of(before, dir, 0), line_of(after, dir, 0));
    let step = choose|step: nat|
        crate::sort::step_allowed(
            step as int,
            options.interval as int,
            options.progressive_amount,
            0,
        ) && #[trigger] line_sorted(l0, l1, step, options);
    let base = choose|base: int|
        1 <= base <= options.interval && step == #[trigger] step_of(
            base,
            options.interval as int,
            options.progressive_amount,
            0,
        );
    assert(step == 1);
    let sorter = sorter_of(options);
    let windows = gathered(l0, 1, 3);
    let blocks = choose|blocks: Seq<Seq<Pixel>>|
        #[trigger] blocks_reordered(
            windows,
            blocks,
            sorter,
            options.reverse,
            options.shuffle,
        ) && l1 == written_line(l0, blocks.flatten());
    assert(windows.len() == 4);
    assert(reordered(windows[0], blocks[0], sorter, options.reverse, options.shuffle));
    assert(reordered(windows[3], blocks[3], sorter, options.reverse, options.shuffle));
    assert(windows[3] =~= Seq::new(3, |j: int| l0[3]));
    lemma_constant_permutation(blocks[3], l0[3], 3);
    let f = blocks.flatten();
    let r1 = blocks.drop_first();
    let r2 = r1.drop_first();
    let r3 = r2.drop_first();
    assert(r3.drop_first() =~= Seq::<Seq<Pixel>>::empty());
    assert(r3.flatten() == r3.first() + r3.drop_first().flatten());
    assert(r3.flatten() =~= blocks[3]);
    assert(r2.flatten() == r2.first() + r3.flatten());
    assert(r1.flatten() == r1.first() + r2.flatten());
    assert(f == blocks[0] + r1.flatten());
    assert(reordered(windows[1], blocks[1], sorter, options.reverse, options.shuffle));
    assert(reordered(windows[2], blocks[2], sorter, options.reverse, options.shuffle));
    assert(windows[1].len() == 3 && windows[2].len() == 3);
    assert(f.len() == 12);
    assert(f[11] == blocks[3][2]);
    assert(l1[3] == f[11]);
    assert(windows[0] =~= Seq::new(3, |x: int| before.at(x, 0)));
    assert(Seq::new(3, |x: int| after.at(x, 0)) =~= blocks[0]) by {
        assert forall|x: int| 0 <= x < 3 implies after.at(x, 0) == blocks[0][x] by {
            assert(l1[x] == f[x]);
        }
    }
    assert(after.at(3, 0) == l1[3]);
}

/// Shuffling takes precedence over ordering: with `shuffle` set, which
/// results a pass may leave on a line does not depend on the score function,
/// its coefficients, the channel or the reverse flag.
pub proof fn lemma_shuffle_ignores_key(
    before: ImageView,
    after: ImageView,
    first: SortOptions,
    second: SortOptions,
    o: int,
)
    requires
        first.shuffle && second.shuffle,
        first.interval == second.interval,
        first.discretize == second.discretize,
        first.progressive_amount == second.progressive_amount,
        first.direction == second.direction,
        line_done(before, after, first, o),
    ensures
        line_done(before, after, second, o),
{
    let dir = first.direction;
    let (l0, l1) = (line_of(before, dir, o), line_of(after, dir, o));
    let step = choose|step: nat|
        crate::sort::step_allowed(
            step as int,
            first.interval as int,
            first.progressive_amount,
            o,
        ) && #[trigger] line_sorted(l0, l1, step, first);
    let windows = gathered(l0, step, first.discretize as nat);
    let blocks = choose|blocks: Seq<Seq<Pixel>>|
        #[trigger] blocks_reordered(
            windows,
            blocks,
            sorter_of(first),
            first.reverse,
            true,
        ) && l1 == written_line(l0, blocks.flatten());
    assert forall|b: int| 0 <= b < blocks.len() implies #[trigger] reordered(
        windows[b],
        blocks[b],
        sorter_of(second),
        second.reverse,
        true,
    ) by {
        assert(reordered(windows[b], blocks[b], sorter_of(first), first.reverse, true));
    }
    assert(blocks_reordered(windows, blocks, sorter_of(second), second.reverse, true));
    assert(line_sorted(l0, l1, step, second));
}

} // verus!
