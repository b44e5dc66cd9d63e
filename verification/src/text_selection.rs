//! The selection geometry engine: turns a rectangular drag gesture over a
//! rendered page into the selected text and one highlight rectangle per
//! visually selected line.
//!
//! The whole computation is specified by [`select_spec`] and its helpers;
//! [`calculate_text_selection`] is proved to return exactly that value.
//! Coordinates follow [`crate::geometry`]: document space in milli-points
//! (y grows upward from the page's bottom), screen space in milli-pixels
//! (y grows downward from the image's top).

use vstd::prelude::*;
use crate::geometry::{
    COORD_LIMIT, DIM_LIMIT, MILLI, SCREEN_LIMIT, scale_to_screen, scale_to_screen_i64,
};
use crate::pdf::{PageText, TextChar, page_chars_wf};
use crate::tabs::{RegionView, SelectionRegion};

verus! {

/// Characters whose screen rows differ by less than this many milli-pixels
/// join the same visual line.
pub const LINE_TOLERANCE: i64 = 5000;

/// Slack past the right page edge, in milli-pixels, before a character is
/// discarded as a layout artifact (an injected line-break marker, say).
pub const WIDTH_SLACK: i64 = 10000;

/// One selection query's inputs, reduced to what the geometry reads:
/// document size (milli-points), raster size (pixels), and the drag
/// rectangle's bounds (milli-pixels).
pub ghost struct SelParams {
    pub doc_w: int,
    pub doc_h: int,
    pub img_w: int,
    pub img_h: int,
    pub min_x: int,
    pub max_x: int,
    pub min_y: int,
    pub max_y: int,
}

impl SelParams {
    /// Magnitude limits under which the fixed-point scaling cannot overflow.
    pub open spec fn wf(self) -> bool {
        0 < self.doc_w <= COORD_LIMIT && 0 < self.doc_h <= COORD_LIMIT && 0 <= self.img_w
            <= DIM_LIMIT && 0 <= self.img_h <= DIM_LIMIT
    }
}

/// The query made from the raw arguments: the drag rectangle's bounds are the
/// coordinate-wise min/max of the two drag points, so drag direction never
/// matters.
pub open spec fn mk_params(
    doc_w: int,
    doc_h: int,
    img_w: int,
    img_h: int,
    sx: int,
    sy: int,
    ex: int,
    ey: int,
) -> SelParams {
    SelParams {
        doc_w,
        doc_h,
        img_w,
        img_h,
        min_x: if sx <= ex { sx } else { ex },
        max_x: if sx >= ex { sx } else { ex },
        min_y: if sy <= ey { sy } else { ey },
        max_y: if sy >= ey { sy } else { ey },
    }
}

/// Absolute value.
pub open spec fn iabs(v: int) -> int {
    if v >= 0 {
        v
    } else {
        -v
    }
}

/// Screen row (milli-pixels from the image's top) of a character's bottom
/// edge: document y grows upward, so the distance from the page's top is
/// `doc_h - y`, scaled to pixels.
pub open spec fn screen_y(c: TextChar, p: SelParams) -> int {
    scale_to_screen(p.doc_h - c.y, p.img_h, p.doc_h)
}

/// Screen column of a character's left edge.
pub open spec fn screen_x(c: TextChar, p: SelParams) -> int {
    scale_to_screen(c.x as int, p.img_w, p.doc_w)
}

/// Screen column of a character's right edge (left edge plus width, scaled
/// as one quantity).
pub open spec fn screen_end_x(c: TextChar, p: SelParams) -> int {
    scale_to_screen(c.x + c.width, p.img_w, p.doc_w)
}

/// A character's height in screen space.
pub open spec fn screen_h(c: TextChar, p: SelParams) -> int {
    scale_to_screen(c.height as int, p.img_h, p.doc_h)
}

/// A character's width in screen space, scaled on its own.
pub open spec fn screen_w(c: TextChar, p: SelParams) -> int {
    scale_to_screen(c.width as int, p.img_w, p.doc_w)
}

/// Whether a character continues the line anchored at `anchor`: their screen
/// rows differ by less than the tolerance.
pub open spec fn same_line(c: TextChar, anchor: TextChar, p: SelParams) -> bool {
    iabs(screen_y(c, p) - screen_y(anchor, p)) < LINE_TOLERANCE
}

/// Greedy line clustering: each character in turn joins the most recently
/// opened line if its screen row is within tolerance of that line's first
/// character's row, and otherwise opens a new line.  This assumes the
/// extraction source emits characters in roughly reading order.
pub open spec fn cluster(chars: Seq<TextChar>, p: SelParams) -> Seq<Seq<TextChar>>
    decreases chars.len(),
{
    if chars.len() == 0 {
        Seq::empty()
    } else {
        let prev = cluster(chars.drop_last(), p);
        let c = chars.last();
        if prev.len() > 0 && prev.last().len() > 0 && same_line(c, prev.last()[0], p) {
            prev.update(prev.len() - 1, prev.last().push(c))
        } else {
            prev.push(seq![c])
        }
    }
}

/// The per-line views of a vector of lines.
pub open spec fn views_of(v: Seq<Vec<TextChar>>) -> Seq<Seq<TextChar>> {
    v.map_values(|l: Vec<TextChar>| l@)
}

/// Every line is non-empty and all its characters are within the accepted
/// coordinate magnitude.
pub open spec fn lines_wf(ls: Seq<Seq<TextChar>>) -> bool {
    forall|i: int|
        0 <= i < ls.len() ==> (#[trigger] ls[i]).len() > 0 && page_chars_wf(ls[i])
}

/// Clustering well-formed characters yields well-formed lines.
proof fn lemma_cluster_wf(chars: Seq<TextChar>, p: SelParams)
    requires
        page_chars_wf(chars),
    ensures
        lines_wf(cluster(chars, p)),
    decreases chars.len(),
{
    if chars.len() > 0 {
        assert(page_chars_wf(chars.drop_last()));
        lemma_cluster_wf(chars.drop_last(), p);
        let prev = cluster(chars.drop_last(), p);
        let c = chars.last();
        assert(c.wf());
        if prev.len() > 0 && prev.last().len() > 0 && same_line(c, prev.last()[0], p) {
            let updated = prev.last().push(c);
            assert(page_chars_wf(updated)) by {
                assert(forall|j: int|
                    0 <= j < updated.len() ==> (#[trigger] updated[j]) == if j < prev.last().len() {
                        prev.last()[j]
                    } else {
                        c
                    });
            }
        }
    }
}

/// Exact screen row of a character, as executable arithmetic.
fn ex_screen_y(c: &TextChar, img_h: u32, doc_h: i64, Ghost(p): Ghost<SelParams>) -> (r: i64)
    requires
        c.wf(),
        p.wf(),
        p.img_h == img_h,
        p.doc_h == doc_h,
    ensures
        r == screen_y(*c, p),
        -SCREEN_LIMIT <= r <= SCREEN_LIMIT,
{
    scale_to_screen_i64(doc_h - c.y, img_h, doc_h)
}

/// Exact screen column of a character's left edge.
fn ex_screen_x(c: &TextChar, img_w: u32, doc_w: i64, Ghost(p): Ghost<SelParams>) -> (r: i64)
    requires
        c.wf(),
        p.wf(),
        p.img_w == img_w,
        p.doc_w == doc_w,
    ensures
        r == screen_x(*c, p),
        -SCREEN_LIMIT <= r <= SCREEN_LIMIT,
{
    scale_to_screen_i64(c.x, img_w, doc_w)
}

/// Exact screen column of a character's right edge.
fn ex_screen_end_x(c: &TextChar, img_w: u32, doc_w: i64, Ghost(p): Ghost<SelParams>) -> (r: i64)
    requires
        c.wf(),
        p.wf(),
        p.img_w == img_w,
        p.doc_w == doc_w,
    ensures
        r == screen_end_x(*c, p),
        -SCREEN_LIMIT <= r <= SCREEN_LIMIT,
{
    scale_to_screen_i64(c.x + c.width, img_w, doc_w)
}

/// Exact screen height of a character.
fn ex_screen_h(c: &TextChar, img_h: u32, doc_h: i64, Ghost(p): Ghost<SelParams>) -> (r: i64)
    requires
        c.wf(),
        p.wf(),
        p.img_h == img_h,
        p.doc_h == doc_h,
    ensures
        r == screen_h(*c, p),
        -SCREEN_LIMIT <= r <= SCREEN_LIMIT,
{
    scale_to_screen_i64(c.height, img_h, doc_h)
}

/// Exact screen width of a character.
fn ex_screen_w(c: &TextChar, img_w: u32, doc_w: i64, Ghost(p): Ghost<SelParams>) -> (r: i64)
    requires
        c.wf(),
        p.wf(),
        p.img_w == img_w,
        p.doc_w == doc_w,
    ensures
        r == screen_w(*c, p),
        -SCREEN_LIMIT <= r <= SCREEN_LIMIT,
{
    scale_to_screen_i64(c.width, img_w, doc_w)
}

/// Groups the page's characters into visual lines, exactly as [`cluster`]
/// describes.
fn cluster_chars(
    chars: &Vec<TextChar>,
    img_h: u32,
    doc_h: i64,
    Ghost(p): Ghost<SelParams>,
) -> (lines: Vec<Vec<TextChar>>)
    requires
        page_chars_wf(chars@),
        p.wf(),
        p.img_h == img_h,
        p.doc_h == doc_h,
    ensures
        views_of(lines@) == cluster(chars@, p),
        lines_wf(views_of(lines@)),
{
    let mut lines: Vec<Vec<TextChar>> = Vec::new();
    let mut i: usize = 0;
    proof {
        assert(chars@.take(0) =~= Seq::<TextChar>::empty());
        assert(views_of(lines@) =~= cluster(chars@.take(0), p));
    }
    while i < chars.len()
        invariant
            i <= chars@.len(),
            page_chars_wf(chars@),
            p.wf(),
            p.img_h == img_h,
            p.doc_h == doc_h,
            views_of(lines@) == cluster(chars@.take(i as int), p),
            lines_wf(views_of(lines@)),
        decreases chars@.len() - i,
    {
        let c = chars[i];
        proof {
            assert(chars@[i as int].wf());
            assert(chars@.take(i + 1).drop_last() =~= chars@.take(i as int));
            assert(chars@.take(i + 1).last() == c);
        }
        let ghost prev = cluster(chars@.take(i as int), p);
        let mut appended = false;
        if lines.len() > 0 {
            let last_idx = lines.len() - 1;
            proof {
                assert(views_of(lines@)[last_idx as int] == lines@[last_idx as int]@);
            }
            if lines[last_idx].len() > 0 {
                let anchor = lines[last_idx][0];
                proof {
                    assert(anchor == prev.last()[0]);
                    assert(anchor.wf());
                }
                let cy = ex_screen_y(&c, img_h, doc_h, Ghost(p));
                let ay = ex_screen_y(&anchor, img_h, doc_h, Ghost(p));
                let diff = cy - ay;
                let mag = if diff >= 0 {
                    diff
                } else {
                    -diff
                };
                if mag < LINE_TOLERANCE {
                    let mut last_line = lines.pop().unwrap();
                    last_line.push(c);
                    lines.push(last_line);
                    appended = true;
                    proof {
                        assert(same_line(c, prev.last()[0], p));
                        assert(views_of(lines@) =~= prev.update(prev.len() - 1, prev.last().push(c)));
                    }
                }
            }
        }
        if !appended {
            let mut fresh: Vec<TextChar> = Vec::new();
            fresh.push(c);
            lines.push(fresh);
            proof {
                assert(fresh@ =~= seq![c]);
                assert(views_of(lines@) =~= prev.push(seq![c]));
                if prev.len() > 0 && prev.last().len() > 0 {
                    assert(!same_line(c, prev.last()[0], p));
                }
            }
        }
        i += 1;
        proof {
            assert(views_of(lines@) =~= cluster(chars@.take(i as int), p));
            lemma_cluster_wf(chars@.take(i as int), p);
            assert(page_chars_wf(chars@.take(i as int)));
        }
    }
    proof {
        assert(chars@.take(chars@.len() as int) =~= chars@);
    }
    lines
}

/// Key by which lines are ordered: the screen row of the line's first
/// character (its anchor from clustering).
pub open spec fn line_key(l: Seq<TextChar>, p: SelParams) -> int
    recommends
        l.len() > 0,
{
    screen_y(l[0], p)
}

/// Stable insertion of a line: it goes after every line whose key is less
/// than or equal to its own.
pub open spec fn insert_line(s: Seq<Seq<TextChar>>, l: Seq<TextChar>, p: SelParams) -> Seq<
    Seq<TextChar>,
>
    decreases s.len(),
{
    if s.len() == 0 {
        seq![l]
    } else if line_key(s.last(), p) <= line_key(l, p) {
        s.push(l)
    } else {
        insert_line(s.drop_last(), l, p).push(s.last())
    }
}

/// Stable sort of the lines by ascending key (top of the image first).
/// Lines with equal keys keep their order, as a stable sort does.
pub open spec fn sort_lines(s: Seq<Seq<TextChar>>, p: SelParams) -> Seq<Seq<TextChar>>
    decreases s.len(),
{
    if s.len() == 0 {
        Seq::empty()
    } else {
        insert_line(sort_lines(s.drop_last(), p), s.last(), p)
    }
}

/// Stable insertion of a character by its document-space left edge.
pub open spec fn insert_char(s: Seq<TextChar>, c: TextChar) -> Seq<TextChar>
    decreases s.len(),
{
    if s.len() == 0 {
        seq![c]
    } else if s.last().x <= c.x {
        s.push(c)
    } else {
        insert_char(s.drop_last(), c).push(s.last())
    }
}

/// Stable sort of a line's characters by ascending left edge.
pub open spec fn sort_chars(s: Seq<TextChar>) -> Seq<TextChar>
    decreases s.len(),
{
    if s.len() == 0 {
        Seq::empty()
    } else {
        insert_char(sort_chars(s.drop_last()), s.last())
    }
}

/// Where the stable insertion lands: at index `j`, the first position whose
/// suffix holds only strictly greater keys.
proof fn lemma_insert_line_at(s: Seq<Seq<TextChar>>, l: Seq<TextChar>, p: SelParams, j: int)
    requires
        0 <= j <= s.len(),
        forall|k: int| j <= k < s.len() ==> line_key(#[trigger] s[k], p) > line_key(l, p),
        j > 0 ==> line_key(s[j - 1], p) <= line_key(l, p),
    ensures
        insert_line(s, l, p) == s.insert(j, l),
    decreases s.len(),
{
    if s.len() == 0 {
        assert(s.insert(0, l) =~= seq![l]);
    } else if j == s.len() {
        assert(line_key(s.last(), p) <= line_key(l, p));
        assert(s.insert(j, l) =~= s.push(l));
    } else {
        assert(line_key(s.last(), p) > line_key(l, p));
        lemma_insert_line_at(s.drop_last(), l, p, j);
        assert(s.drop_last().insert(j, l).push(s.last()) =~= s.insert(j, l));
    }
}

/// Stable insertion keeps the lines well-formed.
proof fn lemma_insert_line_wf(s: Seq<Seq<TextChar>>, l: Seq<TextChar>, p: SelParams)
    requires
        lines_wf(s),
        l.len() > 0,
        page_chars_wf(l),
    ensures
        lines_wf(insert_line(s, l, p)),
    decreases s.len(),
{
    if s.len() == 0 {
    } else if line_key(s.last(), p) <= line_key(l, p) {
    } else {
        assert(lines_wf(s.drop_last()));
        lemma_insert_line_wf(s.drop_last(), l, p);
    }
}

/// Sorting keeps the lines well-formed.
proof fn lemma_sort_lines_wf(s: Seq<Seq<TextChar>>, p: SelParams)
    requires
        lines_wf(s),
    ensures
        lines_wf(sort_lines(s, p)),
    decreases s.len(),
{
    if s.len() > 0 {
        assert(lines_wf(s.drop_last()));
        lemma_sort_lines_wf(s.drop_last(), p);
        lemma_insert_line_wf(sort_lines(s.drop_last(), p), s.last(), p);
    }
}

/// Where the character insertion lands, as [`lemma_insert_line_at`].
proof fn lemma_insert_char_at(s: Seq<TextChar>, c: TextChar, j: int)
    requires
        0 <= j <= s.len(),
        forall|k: int| j <= k < s.len() ==> (#[trigger] s[k]).x > c.x,
        j > 0 ==> s[j - 1].x <= c.x,
    ensures
        insert_char(s, c) == s.insert(j, c),
    decreases s.len(),
{
    if s.len() == 0 {
        assert(s.insert(0, c) =~= seq![c]);
    } else if j == s.len() {
        assert(s.last().x <= c.x);
        assert(s.insert(j, c) =~= s.push(c));
    } else {
        assert(s.last().x > c.x);
        lemma_insert_char_at(s.drop_last(), c, j);
        assert(s.drop_last().insert(j, c).push(s.last()) =~= s.insert(j, c));
    }
}

/// Character insertion adds one character and keeps them well-formed.
proof fn lemma_insert_char_wf(s: Seq<TextChar>, c: TextChar)
    requires
        page_chars_wf(s),
        c.wf(),
    ensures
        page_chars_wf(insert_char(s, c)),
        insert_char(s, c).len() == s.len() + 1,
    decreases s.len(),
{
    if s.len() == 0 {
    } else if s.last().x <= c.x {
    } else {
        assert(page_chars_wf(s.drop_last()));
        lemma_insert_char_wf(s.drop_last(), c);
    }
}

/// Character sorting permutes the line: same length, still well-formed.
proof fn lemma_sort_chars_wf(s: Seq<TextChar>)
    requires
        page_chars_wf(s),
    ensures
        page_chars_wf(sort_chars(s)),
        sort_chars(s).len() == s.len(),
    decreases s.len(),
{
    if s.len() > 0 {
        assert(page_chars_wf(s.drop_last()));
        lemma_sort_chars_wf(s.drop_last());
        lemma_insert_char_wf(sort_chars(s.drop_last()), s.last());
    }
}

/// Sorts the clustered lines top to bottom, exactly as [`sort_lines`]
/// describes.
fn sort_lines_exec(
    lines: Vec<Vec<TextChar>>,
    img_h: u32,
    doc_h: i64,
    Ghost(p): Ghost<SelParams>,
) -> (r: Vec<Vec<TextChar>>)
    requires
        lines_wf(views_of(lines@)),
        p.wf(),
        p.img_h == img_h,
        p.doc_h == doc_h,
    ensures
        views_of(r@) == sort_lines(views_of(lines@), p),
        lines_wf(views_of(r@)),
{
    let ghost orig = views_of(lines@);
    let mut rest = lines;
    let mut out: Vec<Vec<TextChar>> = Vec::new();
    proof {
        assert(orig.skip(0) =~= orig);
        assert(orig.take(0) =~= Seq::<Seq<TextChar>>::empty());
        assert(views_of(out@) =~= sort_lines(orig.take(0), p));
    }
    while rest.len() > 0
        invariant
            p.wf(),
            p.img_h == img_h,
            p.doc_h == doc_h,
            lines_wf(orig),
            rest@.len() <= orig.len(),
            views_of(rest@) == orig.skip(orig.len() - rest@.len()),
            views_of(out@) == sort_lines(orig.take(orig.len() - rest@.len()), p),
            lines_wf(views_of(out@)),
        decreases rest@.len(),
    {
        let ghost k = orig.len() - rest@.len();
        let ghost old_rest = rest@;
        let l = rest.remove(0);
        proof {
            assert(forall|i: int|
                0 <= i < old_rest.len() ==> views_of(old_rest)[i] == (#[trigger] old_rest[i])@);
            assert(l == old_rest[0]);
            assert(l@ == orig.skip(k)[0]);
            assert(l@ == orig[k]);
            assert(views_of(rest@) =~= orig.skip(k + 1)) by {
                assert(forall|i: int|
                    0 <= i < rest@.len() ==> (#[trigger] rest@[i]) == old_rest[i + 1]);
                assert(forall|i: int|
                    0 <= i < rest@.len() ==> views_of(rest@)[i] == (#[trigger] rest@[i])@);
            }
            assert(l@.len() > 0 && page_chars_wf(l@));
        }
        let key = ex_screen_y(&l[0], img_h, doc_h, Ghost(p));
        proof {
            assert(key == line_key(l@, p));
        }
        let mut j: usize = out.len();
        loop
            invariant
                j <= out@.len(),
                lines_wf(views_of(out@)),
                p.wf(),
                p.img_h == img_h,
                p.doc_h == doc_h,
                key == line_key(l@, p),
                forall|k2: int|
                    j <= k2 < out@.len() ==> line_key(#[trigger] views_of(out@)[k2], p) > key,
            ensures
                j <= out@.len(),
                forall|k2: int|
                    j <= k2 < out@.len() ==> line_key(#[trigger] views_of(out@)[k2], p) > key,
                j > 0 ==> line_key(views_of(out@)[j - 1], p) <= key,
            decreases j,
        {
            if j == 0 {
                break;
            }
            proof {
                assert(views_of(out@)[j - 1].len() > 0);
                assert(page_chars_wf(views_of(out@)[j - 1]));
            }
            let prev_key = ex_screen_y(&out[j - 1][0], img_h, doc_h, Ghost(p));
            proof {
                assert(prev_key == line_key(views_of(out@)[j - 1], p));
            }
            if prev_key > key {
                j -= 1;
            } else {
                break;
            }
        }
        let ghost out_before = views_of(out@);
        out.insert(j, l);
        proof {
            lemma_insert_line_at(out_before, l@, p, j as int);
            assert(views_of(out@) =~= out_before.insert(j as int, l@));
            assert(orig.take(k + 1).drop_last() =~= orig.take(k));
            assert(orig.take(k + 1).last() == orig[k]);
            assert(views_of(out@) == sort_lines(orig.take(k + 1), p));
            lemma_insert_line_wf(out_before, l@, p);
        }
    }
    proof {
        assert(orig.take(orig.len() as int) =~= orig);
    }
    out
}

/// Sorts one line's characters left to right, exactly as [`sort_chars`]
/// describes.
fn sort_chars_exec(line: Vec<TextChar>) -> (r: Vec<TextChar>)
    requires
        page_chars_wf(line@),
    ensures
        r@ == sort_chars(line@),
        page_chars_wf(r@),
        r@.len() == line@.len(),
{
    let ghost orig = line@;
    let mut rest = line;
    let mut out: Vec<TextChar> = Vec::new();
    proof {
        assert(orig.skip(0) =~= orig);
        assert(orig.take(0) =~= Seq::<TextChar>::empty());
        assert(out@ =~= sort_chars(orig.take(0)));
    }
    while rest.len() > 0
        invariant
            page_chars_wf(orig),
            rest@.len() <= orig.len(),
            rest@ == orig.skip(orig.len() - rest@.len()),
            out@ == sort_chars(orig.take(orig.len() - rest@.len())),
        decreases rest@.len(),
    {
        let ghost k = orig.len() - rest@.len();
        let c = rest.remove(0);
        proof {
            assert(c == orig.skip(k)[0]);
            assert(c == orig[k]);
            assert(rest@ =~= orig.skip(k + 1));
        }
        let mut j: usize = out.len();
        loop
            invariant
                j <= out@.len(),
                forall|k2: int| j <= k2 < out@.len() ==> (#[trigger] out@[k2]).x > c.x,
            ensures
                j <= out@.len(),
                forall|k2: int| j <= k2 < out@.len() ==> (#[trigger] out@[k2]).x > c.x,
                j > 0 ==> out@[j - 1].x <= c.x,
            decreases j,
        {
            if j == 0 {
                break;
            }
            if out[j - 1].x > c.x {
                j -= 1;
            } else {
                break;
            }
        }
        let ghost out_before = out@;
        out.insert(j, c);
        proof {
            lemma_insert_char_at(out_before, c, j as int);
            assert(orig.take(k + 1).drop_last() =~= orig.take(k));
            assert(orig.take(k + 1).last() == orig[k]);
            assert(out@ == sort_chars(orig.take(k + 1)));
        }
    }
    proof {
        assert(orig.take(orig.len() as int) =~= orig);
        lemma_sort_chars_wf(orig);
    }
    out
}

/// Every line with its characters sorted left to right.
pub open spec fn sort_each(ls: Seq<Seq<TextChar>>) -> Seq<Seq<TextChar>> {
    ls.map_values(|l: Seq<TextChar>| sort_chars(l))
}

/// Whether the drag rectangle hits a line: the line's vertical extent
/// `[top, bottom]`, taken from its first (leftmost) character, overlaps the
/// drag's vertical range.
pub open spec fn line_hit(l: Seq<TextChar>, p: SelParams) -> bool {
    l.len() > 0 && screen_y(l[0], p) >= p.min_y && screen_y(l[0], p) - screen_h(l[0], p)
        <= p.max_y
}

/// The lines the drag hits, in top-to-bottom order.
pub open spec fn hit_lines(ls: Seq<Seq<TextChar>>, p: SelParams) -> Seq<Seq<TextChar>> {
    ls.filter(|l: Seq<TextChar>| line_hit(l, p))
}

/// Filtering a sequence extended by one element.
pub(crate) proof fn lemma_filter_push<A>(s: Seq<A>, x: A, pred: spec_fn(A) -> bool)
    ensures
        s.push(x).filter(pred) == if pred(x) {
            s.filter(pred).push(x)
        } else {
            s.filter(pred)
        },
{
    assert(s.push(x).drop_last() =~= s);
    assert(s.push(x).last() == x);
    reveal_with_fuel(Seq::filter, 2);
}

/// Sorts every line's characters, exactly as [`sort_each`] describes.
fn sort_each_exec(lines: Vec<Vec<TextChar>>) -> (r: Vec<Vec<TextChar>>)
    requires
        lines_wf(views_of(lines@)),
    ensures
        views_of(r@) == sort_each(views_of(lines@)),
        lines_wf(views_of(r@)),
{
    let ghost orig = views_of(lines@);
    let mut rest = lines;
    let mut out: Vec<Vec<TextChar>> = Vec::new();
    proof {
        assert(orig.skip(0) =~= orig);
        assert(views_of(out@) =~= sort_each(orig).take(0));
    }
    while rest.len() > 0
        invariant
            lines_wf(orig),
            rest@.len() <= orig.len(),
            views_of(rest@) == orig.skip(orig.len() - rest@.len()),
            views_of(out@) == sort_each(orig).take(orig.len() - rest@.len()),
            lines_wf(views_of(out@)),
        decreases rest@.len(),
    {
        let ghost k = orig.len() - rest@.len();
        let ghost old_rest = rest@;
        let l = rest.remove(0);
        proof {
            assert(forall|i: int|
                0 <= i < old_rest.len() ==> views_of(old_rest)[i] == (#[trigger] old_rest[i])@);
            assert(l@ == orig.skip(k)[0]);
            assert(l@ == orig[k]);
            assert(views_of(rest@) =~= orig.skip(k + 1)) by {
                assert(forall|i: int|
                    0 <= i < rest@.len() ==> (#[trigger] rest@[i]) == old_rest[i + 1]);
                assert(forall|i: int|
                    0 <= i < rest@.len() ==> views_of(rest@)[i] == (#[trigger] rest@[i])@);
            }
            assert(l@.len() > 0 && page_chars_wf(l@));
        }
        let sorted = sort_chars_exec(l);
        let ghost out_before = views_of(out@);
        out.push(sorted);
        proof {
            assert(views_of(out@) =~= out_before.push(sorted@));
            assert(sorted@ == sort_each(orig)[k]);
            assert(views_of(out@) =~= sort_each(orig).take(k + 1));
        }
    }
    proof {
        assert(sort_each(orig).take(orig.len() as int) =~= sort_each(orig));
    }
    out
}

/// Keeps the lines whose vertical extent overlaps the drag's, exactly as
/// [`hit_lines`] describes.
fn filter_hit_lines(
    lines: Vec<Vec<TextChar>>,
    img_h: u32,
    doc_h: i64,
    smin_y: i64,
    smax_y: i64,
    Ghost(p): Ghost<SelParams>,
) -> (r: Vec<Vec<TextChar>>)
    requires
        lines_wf(views_of(lines@)),
        p.wf(),
        p.img_h == img_h,
        p.doc_h == doc_h,
        p.min_y == smin_y,
        p.max_y == smax_y,
    ensures
        views_of(r@) == hit_lines(views_of(lines@), p),
        lines_wf(views_of(r@)),
{
    let ghost orig = views_of(lines@);
    let ghost pred = |l: Seq<TextChar>| line_hit(l, p);
    let mut rest = lines;
    let mut out: Vec<Vec<TextChar>> = Vec::new();
    proof {
        assert(orig.skip(0) =~= orig);
        assert(orig.take(0) =~= Seq::<Seq<TextChar>>::empty());
        assert(views_of(out@) =~= orig.take(0).filter(pred));
    }
    while rest.len() > 0
        invariant
            lines_wf(orig),
            p.wf(),
            p.img_h == img_h,
            p.doc_h == doc_h,
            p.min_y == smin_y,
            p.max_y == smax_y,
            pred == (|l: Seq<TextChar>| line_hit(l, p)),
            rest@.len() <= orig.len(),
            views_of(rest@) == orig.skip(orig.len() - rest@.len()),
            views_of(out@) == orig.take(orig.len() - rest@.len()).filter(pred),
            lines_wf(views_of(out@)),
        decreases rest@.len(),
    {
        let ghost k = orig.len() - rest@.len();
        let ghost old_rest = rest@;
        let l = rest.remove(0);
        proof {
            assert(forall|i: int|
                0 <= i < old_rest.len() ==> views_of(old_rest)[i] == (#[trigger] old_rest[i])@);
            assert(l@ == orig.skip(k)[0]);
            assert(l@ == orig[k]);
            assert(views_of(rest@) =~= orig.skip(k + 1)) by {
                assert(forall|i: int|
                    0 <= i < rest@.len() ==> (#[trigger] rest@[i]) == old_rest[i + 1]);
                assert(forall|i: int|
                    0 <= i < rest@.len() ==> views_of(rest@)[i] == (#[trigger] rest@[i])@);
            }
            assert(l@.len() > 0 && page_chars_wf(l@));
        }
        let ghost out_before = views_of(out@);
        if l.len() > 0 {
            let y = ex_screen_y(&l[0], img_h, doc_h, Ghost(p));
            let h = ex_screen_h(&l[0], img_h, doc_h, Ghost(p));
            let top = y - h;
            if y >= smin_y && top <= smax_y {
                out.push(l);
                proof {
                    assert(line_hit(orig[k], p));
                    assert(views_of(out@) =~= out_before.push(orig[k]));
                }
            } else {
                proof {
                    assert(!line_hit(orig[k], p));
                }
            }
        }
        proof {
            assert(orig.take(k + 1) =~= orig.take(k).push(orig[k]));
            lemma_filter_push(orig.take(k), orig[k], pred);
            assert(pred(orig[k]) == line_hit(orig[k], p));
            if line_hit(orig[k], p) {
                assert(views_of(out@) == orig.take(k).filter(pred).push(orig[k]));
            } else {
                assert(views_of(out@) == orig.take(k).filter(pred));
            }
            assert(views_of(out@) == orig.take(k + 1).filter(pred));
        }
    }
    proof {
        assert(orig.take(orig.len() as int) =~= orig);
    }
    out
}

/// Whether a character is a plausible glyph of the page: its scaled span
/// must overlap `[0, image_width + WIDTH_SLACK]` — end at or right of the
/// page's left edge, start left of the page's right edge, and end at most
/// [`WIDTH_SLACK`] past it.  Anything whose span lies entirely outside the
/// page is a layout artifact and never reaches output nor affects a line's
/// bounds.  (A glyph merely crossing an edge survives; the emitted
/// rectangle is clamped to the page instead.)
pub open spec fn char_valid(c: TextChar, p: SelParams) -> bool {
    screen_end_x(c, p) >= 0 && screen_x(c, p) < p.img_w * MILLI && screen_end_x(c, p) <= p.img_w
        * MILLI + WIDTH_SLACK
}

/// A character's scaled span intersects the drag's horizontal range.
pub open spec fn char_in_x_range(c: TextChar, p: SelParams) -> bool {
    screen_end_x(c, p) >= p.min_x && screen_x(c, p) <= p.max_x
}

/// A character's scaled right edge reaches the drag's horizontal start.
pub open spec fn char_from_start(c: TextChar, p: SelParams) -> bool {
    screen_end_x(c, p) >= p.min_x
}

/// A character's scaled left edge is before the drag's horizontal end.
pub open spec fn char_to_end(c: TextChar, p: SelParams) -> bool {
    screen_x(c, p) <= p.max_x
}

/// The line's plausible glyphs, artifacts discarded.
pub open spec fn valid_of(l: Seq<TextChar>, p: SelParams) -> Seq<TextChar> {
    l.filter(|c: TextChar| char_valid(c, p))
}

/// The characters a hit line contributes, by its position among the hit
/// lines: a lone line keeps the characters inside the drag's horizontal
/// range; the first of several keeps those from the drag's start to the
/// line's end; the last keeps those from the line's start to the drag's end;
/// lines in between are kept whole.
pub open spec fn survivors(l: Seq<TextChar>, idx: int, n: int, p: SelParams) -> Seq<TextChar> {
    let v = valid_of(l, p);
    if n == 1 {
        v.filter(|c: TextChar| char_in_x_range(c, p))
    } else if idx == 0 {
        v.filter(|c: TextChar| char_from_start(c, p))
    } else if idx == n - 1 {
        v.filter(|c: TextChar| char_to_end(c, p))
    } else {
        v
    }
}

/// The smallest scaled left edge among the characters.
pub open spec fn min_left(s: Seq<TextChar>, p: SelParams) -> int
    recommends
        s.len() > 0,
    decreases s.len(),
{
    if s.len() <= 1 {
        screen_x(s[0], p)
    } else {
        let m = min_left(s.drop_last(), p);
        if screen_x(s.last(), p) < m {
            screen_x(s.last(), p)
        } else {
            m
        }
    }
}

/// The largest scaled right edge among the characters.
pub open spec fn max_right(s: Seq<TextChar>, p: SelParams) -> int
    recommends
        s.len() > 0,
    decreases s.len(),
{
    if s.len() <= 1 {
        screen_end_x(s[0], p)
    } else {
        let m = max_right(s.drop_last(), p);
        if screen_end_x(s.last(), p) > m {
            screen_end_x(s.last(), p)
        } else {
            m
        }
    }
}

/// Keeps the plausible glyphs of a line, exactly as [`valid_of`] describes.
fn filter_valid_chars(
    v: &Vec<TextChar>,
    img_w: u32,
    doc_w: i64,
    Ghost(p): Ghost<SelParams>,
) -> (r: Vec<TextChar>)
    requires
        page_chars_wf(v@),
        p.wf(),
        p.img_w == img_w,
        p.doc_w == doc_w,
    ensures
        r@ == valid_of(v@, p),
        page_chars_wf(r@),
{
    let ghost pred = |c: TextChar| char_valid(c, p);
    let mut out: Vec<TextChar> = Vec::new();
    let mut i: usize = 0;
    proof {
        assert(v@.take(0) =~= Seq::<TextChar>::empty());
        assert(out@ =~= v@.take(0).filter(pred));
    }
    while i < v.len()
        invariant
            i <= v@.len(),
            page_chars_wf(v@),
            p.wf(),
            p.img_w == img_w,
            p.doc_w == doc_w,
            pred == (|c: TextChar| char_valid(c, p)),
            out@ == v@.take(i as int).filter(pred),
            page_chars_wf(out@),
        decreases v@.len() - i,
    {
        let c = v[i];
        proof {
            assert(c.wf());
        }
        let sx = ex_screen_x(&c, img_w, doc_w, Ghost(p));
        let sex = ex_screen_end_x(&c, img_w, doc_w, Ghost(p));
        let limit = (img_w as i64) * MILLI;
        let ghost out_before = out@;
        if sex >= 0 && sx < limit && sex <= limit + WIDTH_SLACK {
            out.push(c);
        }
        proof {
            assert(v@.take(i + 1) =~= v@.take(i as int).push(c));
            lemma_filter_push(v@.take(i as int), c, pred);
            assert(pred(c) == char_valid(c, p));
            if char_valid(c, p) {
                assert(out@ == out_before.push(c));
            } else {
                assert(out@ == out_before);
            }
        }
        i += 1;
    }
    proof {
        assert(v@.take(v@.len() as int) =~= v@);
    }
    out
}

/// Keeps the characters inside the drag's horizontal range.
fn filter_in_x_range(
    v: &Vec<TextChar>,
    img_w: u32,
    doc_w: i64,
    smin_x: i64,
    smax_x: i64,
    Ghost(p): Ghost<SelParams>,
) -> (r: Vec<TextChar>)
    requires
        page_chars_wf(v@),
        p.wf(),
        p.img_w == img_w,
        p.doc_w == doc_w,
        p.min_x == smin_x,
        p.max_x == smax_x,
    ensures
        r@ == v@.filter(|c: TextChar| char_in_x_range(c, p)),
        page_chars_wf(r@),
{
    let ghost pred = |c: TextChar| char_in_x_range(c, p);
    let mut out: Vec<TextChar> = Vec::new();
    let mut i: usize = 0;
    proof {
        assert(v@.take(0) =~= Seq::<TextChar>::empty());
        assert(out@ =~= v@.take(0).filter(pred));
    }
    while i < v.len()
        invariant
            i <= v@.len(),
            page_chars_wf(v@),
            p.wf(),
            p.img_w == img_w,
            p.doc_w == doc_w,
            p.min_x == smin_x,
            p.max_x == smax_x,
            pred == (|c: TextChar| char_in_x_range(c, p)),
            out@ == v@.take(i as int).filter(pred),
            page_chars_wf(out@),
        decreases v@.len() - i,
    {
        let c = v[i];
        proof {
            assert(c.wf());
        }
        let sx = ex_screen_x(&c, img_w, doc_w, Ghost(p));
        let sex = ex_screen_end_x(&c, img_w, doc_w, Ghost(p));
        let ghost out_before = out@;
        if sex >= smin_x && sx <= smax_x {
            out.push(c);
        }
        proof {
            assert(v@.take(i + 1) =~= v@.take(i as int).push(c));
            lemma_filter_push(v@.take(i as int), c, pred);
            assert(pred(c) == char_in_x_range(c, p));
            if char_in_x_range(c, p) {
                assert(out@ == out_before.push(c));
            } else {
                assert(out@ == out_before);
            }
        }
        i += 1;
    }
    proof {
        assert(v@.take(v@.len() as int) =~= v@);
    }
    out
}

/// Keeps the characters from the drag's horizontal start onward.
fn filter_from_start(
    v: &Vec<TextChar>,
    img_w: u32,
    doc_w: i64,
    smin_x: i64,
    Ghost(p): Ghost<SelParams>,
) -> (r: Vec<TextChar>)
    requires
        page_chars_wf(v@),
        p.wf(),
        p.img_w == img_w,
        p.doc_w == doc_w,
        p.min_x == smin_x,
    ensures
        r@ == v@.filter(|c: TextChar| char_from_start(c, p)),
        page_chars_wf(r@),
{
    let ghost pred = |c: TextChar| char_from_start(c, p);
    let mut out: Vec<TextChar> = Vec::new();
    let mut i: usize = 0;
    proof {
        assert(v@.take(0) =~= Seq::<TextChar>::empty());
        assert(out@ =~= v@.take(0).filter(pred));
    }
    while i < v.len()
        invariant
            i <= v@.len(),
            page_chars_wf(v@),
            p.wf(),
            p.img_w == img_w,
            p.doc_w == doc_w,
            p.min_x == smin_x,
            pred == (|c: TextChar| char_from_start(c, p)),
            out@ == v@.take(i as int).filter(pred),
            page_chars_wf(out@),
        decreases v@.len() - i,
    {
        let c = v[i];
        proof {
            assert(c.wf());
        }
        let sex = ex_screen_end_x(&c, img_w, doc_w, Ghost(p));
        let ghost out_before = out@;
        if sex >= smin_x {
            out.push(c);
        }
        proof {
            assert(v@.take(i + 1) =~= v@.take(i as int).push(c));
            lemma_filter_push(v@.take(i as int), c, pred);
            assert(pred(c) == char_from_start(c, p));
            if char_from_start(c, p) {
                assert(out@ == out_before.push(c));
            } else {
                assert(out@ == out_before);
            }
        }
        i += 1;
    }
    proof {
        assert(v@.take(v@.len() as int) =~= v@);
    }
    out
}

/// Keeps the characters up to the drag's horizontal end.
fn filter_to_end(
    v: &Vec<TextChar>,
    img_w: u32,
    doc_w: i64,
    smax_x: i64,
    Ghost(p): Ghost<SelParams>,
) -> (r: Vec<TextChar>)
    requires
        page_chars_wf(v@),
        p.wf(),
        p.img_w == img_w,
        p.doc_w == doc_w,
        p.max_x == smax_x,
    ensures
        r@ == v@.filter(|c: TextChar| char_to_end(c, p)),
        page_chars_wf(r@),
{
    let ghost pred = |c: TextChar| char_to_end(c, p);
    let mut out: Vec<TextChar> = Vec::new();
    let mut i: usize = 0;
    proof {
        assert(v@.take(0) =~= Seq::<TextChar>::empty());
        assert(out@ =~= v@.take(0).filter(pred));
    }
    while i < v.len()
        invariant
            i <= v@.len(),
            page_chars_wf(v@),
            p.wf(),
            p.img_w == img_w,
            p.doc_w == doc_w,
            p.max_x == smax_x,
            pred == (|c: TextChar| char_to_end(c, p)),
            out@ == v@.take(i as int).filter(pred),
            page_chars_wf(out@),
        decreases v@.len() - i,
    {
        let c = v[i];
        proof {
            assert(c.wf());
        }
        let sx = ex_screen_x(&c, img_w, doc_w, Ghost(p));
        let ghost out_before = out@;
        if sx <= smax_x {
            out.push(c);
        }
        proof {
            assert(v@.take(i + 1) =~= v@.take(i as int).push(c));
            lemma_filter_push(v@.take(i as int), c, pred);
            assert(pred(c) == char_to_end(c, p));
            if char_to_end(c, p) {
                assert(out@ == out_before.push(c));
            } else {
                assert(out@ == out_before);
            }
        }
        i += 1;
    }
    proof {
        assert(v@.take(v@.len() as int) =~= v@);
    }
    out
}

/// The characters a hit line contributes, exactly as [`survivors`]
/// describes.
fn survivors_for_line(
    line: &Vec<TextChar>,
    idx: usize,
    n: usize,
    img_w: u32,
    doc_w: i64,
    smin_x: i64,
    smax_x: i64,
    Ghost(p): Ghost<SelParams>,
) -> (r: Vec<TextChar>)
    requires
        idx < n,
        page_chars_wf(line@),
        p.wf(),
        p.img_w == img_w,
        p.doc_w == doc_w,
        p.min_x == smin_x,
        p.max_x == smax_x,
    ensures
        r@ == survivors(line@, idx as int, n as int, p),
        page_chars_wf(r@),
{
    let v = filter_valid_chars(line, img_w, doc_w, Ghost(p));
    if n == 1 {
        filter_in_x_range(&v, img_w, doc_w, smin_x, smax_x, Ghost(p))
    } else if idx == 0 {
        filter_from_start(&v, img_w, doc_w, smin_x, Ghost(p))
    } else if idx == n - 1 {
        filter_to_end(&v, img_w, doc_w, smax_x, Ghost(p))
    } else {
        v
    }
}

/// The smallest scaled left edge, exactly as [`min_left`] describes.
fn min_left_exec(
    v: &Vec<TextChar>,
    img_w: u32,
    doc_w: i64,
    Ghost(p): Ghost<SelParams>,
) -> (r: i64)
    requires
        v@.len() > 0,
        page_chars_wf(v@),
        p.wf(),
        p.img_w == img_w,
        p.doc_w == doc_w,
    ensures
        r == min_left(v@, p),
        -SCREEN_LIMIT <= r <= SCREEN_LIMIT,
{
    let mut m = ex_screen_x(&v[0], img_w, doc_w, Ghost(p));
    let mut i: usize = 1;
    proof {
        assert(v@.take(1)[0] == v@[0]);
        assert(m == min_left(v@.take(1), p));
    }
    while i < v.len()
        invariant
            1 <= i <= v@.len(),
            page_chars_wf(v@),
            p.wf(),
            p.img_w == img_w,
            p.doc_w == doc_w,
            m == min_left(v@.take(i as int), p),
            -SCREEN_LIMIT <= m <= SCREEN_LIMIT,
        decreases v@.len() - i,
    {
        let c = v[i];
        proof {
            assert(c.wf());
        }
        let sx = ex_screen_x(&c, img_w, doc_w, Ghost(p));
        proof {
            assert(v@.take(i + 1).drop_last() =~= v@.take(i as int));
            assert(v@.take(i + 1).last() == c);
        }
        if sx < m {
            m = sx;
        }
        i += 1;
    }
    proof {
        assert(v@.take(v@.len() as int) =~= v@);
    }
    m
}

/// The largest scaled right edge, exactly as [`max_right`] describes.
fn max_right_exec(
    v: &Vec<TextChar>,
    img_w: u32,
    doc_w: i64,
    Ghost(p): Ghost<SelParams>,
) -> (r: i64)
    requires
        v@.len() > 0,
        page_chars_wf(v@),
        p.wf(),
        p.img_w == img_w,
        p.doc_w == doc_w,
    ensures
        r == max_right(v@, p),
        -SCREEN_LIMIT <= r <= SCREEN_LIMIT,
{
    let mut m = ex_screen_end_x(&v[0], img_w, doc_w, Ghost(p));
    let mut i: usize = 1;
    proof {
        assert(v@.take(1)[0] == v@[0]);
        assert(m == max_right(v@.take(1), p));
    }
    while i < v.len()
        invariant
            1 <= i <= v@.len(),
            page_chars_wf(v@),
            p.wf(),
            p.img_w == img_w,
            p.doc_w == doc_w,
            m == max_right(v@.take(i as int), p),
            -SCREEN_LIMIT <= m <= SCREEN_LIMIT,
        decreases v@.len() - i,
    {
        let c = v[i];
        proof {
            assert(c.wf());
        }
        let sex = ex_screen_end_x(&c, img_w, doc_w, Ghost(p));
        proof {
            assert(v@.take(i + 1).drop_last() =~= v@.take(i as int));
            assert(v@.take(i + 1).last() == c);
        }
        if sex > m {
            m = sex;
        }
        i += 1;
    }
    proof {
        assert(v@.take(v@.len() as int) =~= v@);
    }
    m
}

/// The text one hit line contributes: its surviving characters, sorted left
/// to right.
pub open spec fn line_text(l: Seq<TextChar>, idx: int, n: int, p: SelParams) -> Seq<char> {
    sort_chars(survivors(l, idx, n, p)).map_values(|c: TextChar| c.ch)
}

/// The per-line texts of the hit lines, in order.
pub open spec fn text_parts(sel: Seq<Seq<TextChar>>, p: SelParams) -> Seq<Seq<char>> {
    Seq::new(sel.len(), |i: int| line_text(sel[i], i, sel.len() as int, p))
}

/// Parts joined with a single newline between consecutive parts.
pub open spec fn join_parts(parts: Seq<Seq<char>>) -> Seq<char>
    decreases parts.len(),
{
    if parts.len() == 0 {
        Seq::empty()
    } else if parts.len() == 1 {
        parts[0]
    } else {
        join_parts(parts.drop_last()) + seq!['\n'] + parts.last()
    }
}

/// The selected text: the non-empty per-line texts joined by single
/// newlines.  A line whose survivors are empty contributes nothing, not
/// even a blank line.
pub open spec fn selected_text(sel: Seq<Seq<TextChar>>, p: SelParams) -> Seq<char> {
    join_parts(text_parts(sel, p).filter(|t: Seq<char>| t.len() > 0))
}

/// Relies on `String::push`: appends the given character to the end of the
/// string.
#[verifier::external_body]
fn push_char(s: &mut String, c: char)
    ensures
        final(s)@ == old(s)@.push(c),
{
    s.push(c);
}

/// Builds the selected text of the hit lines, exactly as [`selected_text`]
/// describes.
fn build_selected_text(
    sel: &Vec<Vec<TextChar>>,
    img_w: u32,
    doc_w: i64,
    smin_x: i64,
    smax_x: i64,
    Ghost(p): Ghost<SelParams>,
) -> (r: String)
    requires
        lines_wf(views_of(sel@)),
        p.wf(),
        p.img_w == img_w,
        p.doc_w == doc_w,
        p.min_x == smin_x,
        p.max_x == smax_x,
    ensures
        r@ == selected_text(views_of(sel@), p),
{
    let ghost gsel = views_of(sel@);
    let ghost parts = text_parts(gsel, p);
    let ghost nonempty = |t: Seq<char>| t.len() > 0;
    let n = sel.len();
    let mut out = String::new();
    let mut any = false;
    let mut i: usize = 0;
    proof {
        assert(parts.take(0) =~= Seq::<Seq<char>>::empty());
        assert(out@ =~= join_parts(parts.take(0).filter(nonempty)));
    }
    while i < n
        invariant
            i <= n,
            n == sel@.len(),
            gsel == views_of(sel@),
            parts == text_parts(gsel, p),
            nonempty == (|t: Seq<char>| t.len() > 0),
            lines_wf(gsel),
            p.wf(),
            p.img_w == img_w,
            p.doc_w == doc_w,
            p.min_x == smin_x,
            p.max_x == smax_x,
            out@ == join_parts(parts.take(i as int).filter(nonempty)),
            any == (parts.take(i as int).filter(nonempty).len() > 0),
        decreases n - i,
    {
        proof {
            assert(gsel[i as int] == sel@[i as int]@);
            assert(page_chars_wf(gsel[i as int]));
        }
        let surv = survivors_for_line(&sel[i], i, n, img_w, doc_w, smin_x, smax_x, Ghost(p));
        let sorted = sort_chars_exec(surv);
        let ghost part = line_text(gsel[i as int], i as int, n as int, p);
        proof {
            assert(sorted@.map_values(|c: TextChar| c.ch) == part);
            assert(parts[i as int] == part);
        }
        let ghost joined_before = parts.take(i as int).filter(nonempty);
        if sorted.len() > 0 {
            if any {
                push_char(&mut out, '\n');
            }
            let ghost line_start = out@;
            let mut j: usize = 0;
            while j < sorted.len()
                invariant
                    j <= sorted@.len(),
                    part == sorted@.map_values(|c: TextChar| c.ch),
                    out@ == line_start + part.take(j as int),
                decreases sorted@.len() - j,
            {
                let c = sorted[j];
                push_char(&mut out, c.ch);
                proof {
                    assert(part[j as int] == c.ch);
                    assert(line_start + part.take(j as int) + seq![c.ch] =~= line_start + part.take(
                        j + 1,
                    ));
                }
                j += 1;
            }
            any = true;
            proof {
                assert(part.take(part.len() as int) =~= part);
                assert(part.len() > 0);
            }
        } else {
            proof {
                assert(part.len() == 0);
            }
        }
        proof {
            assert(parts.take(i + 1) =~= parts.take(i as int).push(part));
            lemma_filter_push(parts.take(i as int), part, nonempty);
            let fnow = parts.take(i + 1).filter(nonempty);
            if part.len() > 0 {
                assert(fnow == joined_before.push(part));
                assert(fnow.drop_last() =~= joined_before);
                assert(fnow.last() == part);
                if joined_before.len() == 0 {
                    assert(join_parts(fnow) == part);
                    assert(out@ =~= join_parts(fnow));
                } else {
                    assert(join_parts(fnow) == join_parts(joined_before) + seq!['\n'] + part);
                    assert(out@ =~= join_parts(fnow));
                }
            } else {
                assert(fnow == joined_before);
            }
            assert(out@ == join_parts(parts.take(i + 1).filter(nonempty)));
        }
        i += 1;
    }
    proof {
        assert(parts.take(parts.len() as int) =~= parts);
    }
    out
}

/// The highlight rectangle one hit line contributes, if any: the line's
/// vertical extent comes from its first character; the horizontal extent
/// spans the surviving characters — smallest left edge to largest right
/// edge, never the drag rectangle — is clamped to the image, and is dropped
/// when nothing of positive width remains.  Where a side runs to the line's
/// natural end, that end is the extreme edge among all the line's plausible
/// glyphs (which coincides with the survivors' extreme: an excluded glyph
/// ends before the drag's start, or starts after its end).
pub open spec fn region_of(l: Seq<TextChar>, idx: int, n: int, p: SelParams) -> Option<
    RegionView,
> {
    if l.len() == 0 {
        None
    } else {
        let line_height = screen_h(l[0], p);
        let line_top = screen_y(l[0], p) - line_height;
        let v = valid_of(l, p);
        if v.len() == 0 {
            None
        } else {
            let line_min_x = screen_x(v[0], p);
            let line_max_x = max_right(v, p);
            let bounds = if n == 1 {
                let r = v.filter(|c: TextChar| char_in_x_range(c, p));
                if r.len() == 0 {
                    Option::<(int, int)>::None
                } else {
                    Some((min_left(r, p), max_right(r, p)))
                }
            } else if idx == 0 {
                let r = v.filter(|c: TextChar| char_from_start(c, p));
                if r.len() == 0 {
                    Option::<(int, int)>::None
                } else {
                    Some((min_left(r, p), line_max_x))
                }
            } else if idx == n - 1 {
                let r = v.filter(|c: TextChar| char_to_end(c, p));
                if r.len() == 0 {
                    Option::<(int, int)>::None
                } else {
                    Some((line_min_x, max_right(r, p)))
                }
            } else {
                Some((line_min_x, line_max_x))
            };
            match bounds {
                None => None,
                Some((sel_min, sel_max)) => {
                    let cmin = if sel_min >= 0 {
                        sel_min
                    } else {
                        0
                    };
                    let cmax = if sel_max <= p.img_w * MILLI {
                        sel_max
                    } else {
                        p.img_w * MILLI
                    };
                    if cmax - cmin > 0 {
                        Some(
                            RegionView {
                                x: cmin,
                                y: line_top,
                                width: cmax - cmin,
                                height: line_height,
                            },
                        )
                    } else {
                        None
                    }
                },
            }
        }
    }
}

/// The regions of the first `k` hit lines, in order.
pub open spec fn regions_upto(sel: Seq<Seq<TextChar>>, n: int, k: int, p: SelParams) -> Seq<
    RegionView,
>
    decreases k,
{
    if k <= 0 {
        Seq::empty()
    } else {
        regions_upto(sel, n, k - 1, p) + match region_of(sel[k - 1], k - 1, n, p) {
            Some(r) => seq![r],
            None => Seq::empty(),
        }
    }
}

/// One highlight rectangle per hit line that kept characters.
pub open spec fn selected_regions(sel: Seq<Seq<TextChar>>, p: SelParams) -> Seq<RegionView> {
    regions_upto(sel, sel.len() as int, sel.len() as int, p)
}

/// The views of a vector of regions.
pub open spec fn region_views(v: Seq<SelectionRegion>) -> Seq<RegionView> {
    v.map_values(|r: SelectionRegion| r@)
}

/// Builds the highlight rectangles of the hit lines, exactly as
/// [`selected_regions`] describes; every emitted rectangle has positive
/// width and lies horizontally within the image.
fn build_selection_regions(
    sel: &Vec<Vec<TextChar>>,
    img_w: u32,
    img_h: u32,
    doc_w: i64,
    doc_h: i64,
    smin_x: i64,
    smax_x: i64,
    Ghost(p): Ghost<SelParams>,
) -> (r: Vec<SelectionRegion>)
    requires
        lines_wf(views_of(sel@)),
        p.wf(),
        p.img_w == img_w,
        p.img_h == img_h,
        p.doc_w == doc_w,
        p.doc_h == doc_h,
        p.min_x == smin_x,
        p.max_x == smax_x,
    ensures
        region_views(r@) == selected_regions(views_of(sel@), p),
        forall|i: int|
            0 <= i < r@.len() ==> (#[trigger] r@[i]).width > 0 && r@[i].x >= 0 && r@[i].x as int
                + r@[i].width as int <= p.img_w * MILLI,
{
    let ghost gsel = views_of(sel@);
    let n = sel.len();
    let mut out: Vec<SelectionRegion> = Vec::new();
    let mut i: usize = 0;
    proof {
        assert(region_views(out@) =~= regions_upto(gsel, n as int, 0, p));
    }
    while i < n
        invariant
            i <= n,
            n == sel@.len(),
            gsel == views_of(sel@),
            lines_wf(gsel),
            p.wf(),
            p.img_w == img_w,
            p.img_h == img_h,
            p.doc_w == doc_w,
            p.doc_h == doc_h,
            p.min_x == smin_x,
            p.max_x == smax_x,
            region_views(out@) == regions_upto(gsel, n as int, i as int, p),
            forall|k: int|
                0 <= k < out@.len() ==> (#[trigger] out@[k]).width > 0 && out@[k].x >= 0
                    && out@[k].x as int + out@[k].width as int <= p.img_w * MILLI,
        decreases n - i,
    {
        let ghost l = gsel[i as int];
        proof {
            assert(l == sel@[i as int]@);
            assert(l.len() > 0 && page_chars_wf(l));
        }
        let ghost out_before = out@;
        let line = &sel[i];
        let first = line[0];
        proof {
            assert(first.wf());
        }
        let line_height = ex_screen_h(&first, img_h, doc_h, Ghost(p));
        let y = ex_screen_y(&first, img_h, doc_h, Ghost(p));
        let line_top = y - line_height;
        let valid = filter_valid_chars(line, img_w, doc_w, Ghost(p));
        if valid.len() > 0 {
            proof {
                assert(valid@ == valid_of(l, p));
            }
            let vfirst = valid[0];
            proof {
                assert(vfirst.wf());
            }
            let line_min_x = ex_screen_x(&vfirst, img_w, doc_w, Ghost(p));
            let line_max_x = max_right_exec(&valid, img_w, doc_w, Ghost(p));
            let mut have_bounds = false;
            let mut sel_min: i64 = 0;
            let mut sel_max: i64 = 0;
            if n == 1 {
                let in_range = filter_in_x_range(&valid, img_w, doc_w, smin_x, smax_x, Ghost(p));
                if in_range.len() > 0 {
                    sel_min = min_left_exec(&in_range, img_w, doc_w, Ghost(p));
                    sel_max = max_right_exec(&in_range, img_w, doc_w, Ghost(p));
                    have_bounds = true;
                }
            } else if i == 0 {
                let from_start = filter_from_start(&valid, img_w, doc_w, smin_x, Ghost(p));
                if from_start.len() > 0 {
                    sel_min = min_left_exec(&from_start, img_w, doc_w, Ghost(p));
                    sel_max = line_max_x;
                    have_bounds = true;
                }
            } else if i == n - 1 {
                let to_end = filter_to_end(&valid, img_w, doc_w, smax_x, Ghost(p));
                if to_end.len() > 0 {
                    sel_min = line_min_x;
                    sel_max = max_right_exec(&to_end, img_w, doc_w, Ghost(p));
                    have_bounds = true;
                }
            } else {
                sel_min = line_min_x;
                sel_max = line_max_x;
                have_bounds = true;
            }
            if have_bounds {
                let limit = (img_w as i64) * MILLI;
                let clamped_min = if sel_min >= 0 {
                    sel_min
                } else {
                    0
                };
                let clamped_max = if sel_max <= limit {
                    sel_max
                } else {
                    limit
                };
                let width = clamped_max - clamped_min;
                if width > 0 {
                    out.push(
                        SelectionRegion { x: clamped_min, y: line_top, width, height: line_height },
                    );
                    proof {
                        assert(region_of(l, i as int, n as int, p) == Some(
                            RegionView {
                                x: clamped_min as int,
                                y: line_top as int,
                                width: width as int,
                                height: line_height as int,
                            },
                        ));
                        assert(region_views(out@) =~= region_views(out_before).push(
                            region_of(l, i as int, n as int, p).unwrap(),
                        ));
                    }
                } else {
                    proof {
                        assert(region_of(l, i as int, n as int, p) is None);
                    }
                }
            } else {
                proof {
                    assert(region_of(l, i as int, n as int, p) is None);
                }
            }
        } else {
            proof {
                assert(valid_of(l, p).len() == 0);
                assert(region_of(l, i as int, n as int, p) is None);
            }
        }
        i += 1;
        proof {
            assert(region_views(out@) == regions_upto(gsel, n as int, i as int, p));
        }
    }
    out
}

/// The whole selection query: characters clustered into lines, lines sorted
/// top to bottom and left to right, the hit lines reduced to their surviving
/// characters, and those turned into the selected text and one highlight
/// rectangle per line.
pub open spec fn select_spec(chars: Seq<TextChar>, p: SelParams) -> (Seq<char>, Seq<RegionView>) {
    let sel = hit_lines(sort_each(sort_lines(cluster(chars, p), p)), p);
    (selected_text(sel, p), selected_regions(sel, p))
}

/// Computes the text and the highlight rectangles selected by a drag from
/// `(start_x, start_y)` to `(end_x, end_y)` (milli-pixels, either order)
/// over a page of `pdf_width` by `pdf_height` milli-points rendered at
/// `page_width` by `page_height` pixels.  Returns exactly
/// [`select_spec`]'s value: the function is pure, so identical arguments
/// always yield identical output.
pub fn calculate_text_selection(
    page_text: &PageText,
    pdf_width: i64,
    pdf_height: i64,
    page_width: u32,
    page_height: u32,
    start_x: i64,
    start_y: i64,
    end_x: i64,
    end_y: i64,
) -> (r: (String, Vec<SelectionRegion>))
    requires
        page_chars_wf(page_text@.chars),
        0 < pdf_width <= COORD_LIMIT,
        0 < pdf_height <= COORD_LIMIT,
        page_width <= DIM_LIMIT,
        page_height <= DIM_LIMIT,
    ensures
        ({
            let p = mk_params(
                pdf_width as int,
                pdf_height as int,
                page_width as int,
                page_height as int,
                start_x as int,
                start_y as int,
                end_x as int,
                end_y as int,
            );
            r.0@ == select_spec(page_text@.chars, p).0 && region_views(r.1@) == select_spec(
                page_text@.chars,
                p,
            ).1
        }),
        forall|i: int|
            0 <= i < r.1@.len() ==> (#[trigger] r.1@[i]).width > 0 && r.1@[i].x >= 0
                && r.1@[i].x as int + r.1@[i].width as int <= page_width as int * MILLI,
{
    let ghost p = mk_params(
        pdf_width as int,
        pdf_height as int,
        page_width as int,
        page_height as int,
        start_x as int,
        start_y as int,
        end_x as int,
        end_y as int,
    );
    let smin_x = crate::geometry::coord_min(start_x, end_x);
    let smax_x = crate::geometry::coord_max(start_x, end_x);
    let smin_y = crate::geometry::coord_min(start_y, end_y);
    let smax_y = crate::geometry::coord_max(start_y, end_y);
    proof {
        assert(p.wf());
        assert(p.min_x == smin_x && p.max_x == smax_x && p.min_y == smin_y && p.max_y == smax_y);
    }
    let clustered = cluster_chars(&page_text.chars, page_height, pdf_height, Ghost(p));
    let by_row = sort_lines_exec(clustered, page_height, pdf_height, Ghost(p));
    let sorted = sort_each_exec(by_row);
    let hit = filter_hit_lines(sorted, page_height, pdf_height, smin_y, smax_y, Ghost(p));
    let text = build_selected_text(&hit, page_width, pdf_width, smin_x, smax_x, Ghost(p));
    let regions = build_selection_regions(
        &hit,
        page_width,
        page_height,
        pdf_width,
        pdf_height,
        smin_x,
        smax_x,
        Ghost(p),
    );
    (text, regions)
}

/// Law: drag direction is irrelevant.  Swapping the two drag points changes
/// nothing about the selection, text or rectangles.
pub proof fn lemma_select_drag_direction_irrelevant(
    chars: Seq<TextChar>,
    doc_w: int,
    doc_h: int,
    img_w: int,
    img_h: int,
    sx: int,
    sy: int,
    ex: int,
    ey: int,
)
    ensures
        select_spec(chars, mk_params(doc_w, doc_h, img_w, img_h, sx, sy, ex, ey)) == select_spec(
            chars,
            mk_params(doc_w, doc_h, img_w, img_h, ex, ey, sx, sy),
        ),
{
    assert(mk_params(doc_w, doc_h, img_w, img_h, sx, sy, ex, ey) == mk_params(
        doc_w,
        doc_h,
        img_w,
        img_h,
        ex,
        ey,
        sx,
        sy,
    ));
}

/// Law: the selection is a pure function of its arguments.  Any two results
/// of the same query are identical; [`calculate_text_selection`] ensures its
/// result equals [`select_spec`], so two calls with identical arguments
/// return byte-identical text and identical rectangles.
pub proof fn lemma_select_deterministic(
    chars: Seq<TextChar>,
    p: SelParams,
    a: (Seq<char>, Seq<RegionView>),
    b: (Seq<char>, Seq<RegionView>),
)
    requires
        a == select_spec(chars, p),
        b == select_spec(chars, p),
    ensures
        a == b,
{
}

/// Law: when exactly two lines are hit and both keep characters, the text
/// is the first line's part, one newline, then the second line's part —
/// top to bottom, never more separators.
pub proof fn lemma_two_line_text(sel: Seq<Seq<TextChar>>, p: SelParams)
    requires
        sel.len() == 2,
        line_text(sel[0], 0, 2, p).len() > 0,
        line_text(sel[1], 1, 2, p).len() > 0,
    ensures
        selected_text(sel, p) == line_text(sel[0], 0, 2, p) + seq!['\n'] + line_text(
            sel[1],
            1,
            2,
            p,
        ),
{
    let parts = text_parts(sel, p);
    let nonempty = |t: Seq<char>| t.len() > 0;
    assert(parts.len() == 2);
    assert(parts[0] == line_text(sel[0], 0, 2, p));
    assert(parts[1] == line_text(sel[1], 1, 2, p));
    let f = parts.filter(nonempty);
    assert(parts.drop_last() =~= seq![parts[0]]);
    assert(seq![parts[0]].drop_last() =~= Seq::<Seq<char>>::empty());
    reveal_with_fuel(Seq::filter, 3);
    assert(f == seq![parts[0], parts[1]]) by {
        assert(parts.drop_last().filter(nonempty) == seq![parts[0]]) by {
            assert(seq![parts[0]].drop_last().filter(nonempty) == Seq::<Seq<char>>::empty());
        }
        assert(f == parts.drop_last().filter(nonempty).push(parts[1]));
        assert(seq![parts[0]].push(parts[1]) =~= seq![parts[0], parts[1]]);
    }
    assert(f.drop_last() =~= seq![parts[0]]);
    assert(join_parts(seq![parts[0]]) == parts[0]);
    assert(join_parts(f) == parts[0] + seq!['\n'] + parts[1]);
}

/// Law: with exactly two hit lines, one glyph of the first reaching the
/// drag's horizontal start and one glyph of the second starting before the
/// drag's horizontal end, the selection is the first line's surviving part,
/// one newline, then the second line's — regardless of anything else on
/// either line.
pub proof fn lemma_two_line_selection_text(sel: Seq<Seq<TextChar>>, p: SelParams)
    requires
        sel.len() == 2,
        exists|i: int|
            0 <= i < valid_of(sel[0], p).len() && char_from_start(
                #[trigger] valid_of(sel[0], p)[i],
                p,
            ),
        exists|i: int|
            0 <= i < valid_of(sel[1], p).len() && char_to_end(
                #[trigger] valid_of(sel[1], p)[i],
                p,
            ),
    ensures
        selected_text(sel, p) == line_text(sel[0], 0, 2, p) + seq!['\n'] + line_text(
            sel[1],
            1,
            2,
            p,
        ),
{
    let v0 = valid_of(sel[0], p);
    let v1 = valid_of(sel[1], p);
    let pred0 = |c: TextChar| char_from_start(c, p);
    let pred1 = |c: TextChar| char_to_end(c, p);
    let w0 = choose|i: int| 0 <= i < v0.len() && char_from_start(#[trigger] v0[i], p);
    let w1 = choose|i: int| 0 <= i < v1.len() && char_to_end(#[trigger] v1[i], p);
    v0.lemma_filter_contains(pred0, w0);
    v1.lemma_filter_contains(pred1, w1);
    assert(survivors(sel[0], 0, 2, p).len() > 0);
    assert(survivors(sel[1], 1, 2, p).len() > 0);
    lemma_sort_chars_len(survivors(sel[0], 0, 2, p));
    lemma_sort_chars_len(survivors(sel[1], 1, 2, p));
    lemma_two_line_text(sel, p);
}

/// Law: a hit line whose survivors are empty after the artifact and
/// per-line filters contributes no rectangle at all — no degenerate output,
/// and the other lines' rectangles are exactly what they would be alone.
pub proof fn lemma_empty_line_emits_no_region(
    sel: Seq<Seq<TextChar>>,
    n: int,
    k: int,
    p: SelParams,
)
    requires
        0 <= k < sel.len(),
        n == sel.len(),
        survivors(sel[k], k, n, p).len() == 0,
    ensures
        region_of(sel[k], k, n, p) is None,
        regions_upto(sel, n, k + 1, p) == regions_upto(sel, n, k, p),
{
    let l = sel[k];
    let v = valid_of(l, p);
    if l.len() == 0 {
    } else if v.len() == 0 {
    } else {
        if n == 1 {
        } else if k == 0 {
        } else if k == n - 1 {
        } else {
            assert(survivors(l, k, n, p) == v);
            assert(false);
        }
    }
    assert(regions_upto(sel, n, k, p) + Seq::<RegionView>::empty() =~= regions_upto(
        sel,
        n,
        k,
        p,
    ));
}

/// Character insertion grows the line by one.
proof fn lemma_insert_char_len(s: Seq<TextChar>, c: TextChar)
    ensures
        insert_char(s, c).len() == s.len() + 1,
    decreases s.len(),
{
    if s.len() == 0 {
    } else if s.last().x <= c.x {
    } else {
        lemma_insert_char_len(s.drop_last(), c);
    }
}

/// Character sorting keeps the line's length.
proof fn lemma_sort_chars_len(s: Seq<TextChar>)
    ensures
        sort_chars(s).len() == s.len(),
    decreases s.len(),
{
    if s.len() > 0 {
        lemma_sort_chars_len(s.drop_last());
        lemma_insert_char_len(sort_chars(s.drop_last()), s.last());
    }
}

/// A filter that keeps everything changes nothing.
proof fn lemma_filter_all<A>(s: Seq<A>, pred: spec_fn(A) -> bool)
    requires
        forall|i: int| 0 <= i < s.len() ==> pred(#[trigger] s[i]),
    ensures
        s.filter(pred) == s,
    decreases s.len(),
{
    reveal_with_fuel(Seq::filter, 2);
    if s.len() > 0 {
        assert(forall|i: int|
            0 <= i < s.drop_last().len() ==> s.drop_last()[i] == #[trigger] s[i]);
        lemma_filter_all(s.drop_last(), pred);
        assert(s.drop_last().push(s.last()) =~= s);
    }
}

/// Law: when exactly two lines are hit, the drag reaches past the first
/// line's characters' right edges and back past the second line's
/// characters' left edges, and both lines keep characters, the selection is
/// those two whole lines (artifacts aside), top to bottom, joined by one
/// newline.
pub proof fn lemma_two_whole_lines(sel: Seq<Seq<TextChar>>, p: SelParams)
    requires
        sel.len() == 2,
        valid_of(sel[0], p).len() > 0,
        valid_of(sel[1], p).len() > 0,
        forall|i: int|
            0 <= i < valid_of(sel[0], p).len() ==> screen_end_x(
                #[trigger] valid_of(sel[0], p)[i],
                p,
            ) >= p.min_x,
        forall|i: int|
            0 <= i < valid_of(sel[1], p).len() ==> screen_x(#[trigger] valid_of(sel[1], p)[i], p)
                <= p.max_x,
    ensures
        selected_text(sel, p) == sort_chars(valid_of(sel[0], p)).map_values(|c: TextChar| c.ch)
            + seq!['\n'] + sort_chars(valid_of(sel[1], p)).map_values(|c: TextChar| c.ch),
{
    lemma_filter_all(valid_of(sel[0], p), |c: TextChar| char_from_start(c, p));
    lemma_filter_all(valid_of(sel[1], p), |c: TextChar| char_to_end(c, p));
    assert(survivors(sel[0], 0, 2, p) == valid_of(sel[0], p));
    assert(survivors(sel[1], 1, 2, p) == valid_of(sel[1], p));
    lemma_sort_chars_len(valid_of(sel[0], p));
    lemma_sort_chars_len(valid_of(sel[1], p));
    assert(line_text(sel[0], 0, 2, p).len() > 0);
    assert(line_text(sel[1], 1, 2, p).len() > 0);
    lemma_two_line_text(sel, p);
}

/// The lines' anchor rows never decrease: every earlier line sits at or
/// above every later one.
pub open spec fn rows_ordered(ls: Seq<Seq<TextChar>>, p: SelParams) -> bool {
    forall|i: int, j: int|
        0 <= i < j < ls.len() ==> line_key(#[trigger] ls[i], p) <= line_key(#[trigger] ls[j], p)
}

/// Stable insertion keeps the rows ordered.
proof fn lemma_insert_line_ordered(s: Seq<Seq<TextChar>>, l: Seq<TextChar>, p: SelParams)
    requires
        rows_ordered(s, p),
    ensures
        rows_ordered(insert_line(s, l, p), p),
    decreases s.len(),
{
    if s.len() == 0 {
    } else if line_key(s.last(), p) <= line_key(l, p) {
        let out = s.push(l);
        assert forall|i: int, j: int|
            0 <= i < j < out.len() implies line_key(#[trigger] out[i], p) <= line_key(
            #[trigger] out[j],
            p,
        ) by {
            if j == out.len() - 1 {
                if i < s.len() - 1 {
                    assert(line_key(s[i], p) <= line_key(s[s.len() - 1], p));
                }
            }
        }
    } else {
        assert(rows_ordered(s.drop_last(), p)) by {
            assert(forall|k: int|
                0 <= k < s.drop_last().len() ==> s.drop_last()[k] == #[trigger] s[k]);
        }
        lemma_insert_line_ordered(s.drop_last(), l, p);
        lemma_insert_line_elems(s.drop_last(), l, p);
        let sub = insert_line(s.drop_last(), l, p);
        let out = sub.push(s.last());
        assert forall|i: int, j: int|
            0 <= i < j < out.len() implies line_key(#[trigger] out[i], p) <= line_key(
            #[trigger] out[j],
            p,
        ) by {
            if j == out.len() - 1 {
                assert(out[j] == s.last());
                assert(s.drop_last().contains(sub[i]) || sub[i] == l);
                if sub[i] == l {
                } else {
                    let k = choose|k: int|
                        0 <= k < s.drop_last().len() && s.drop_last()[k] == sub[i];
                    assert(line_key(s[k], p) <= line_key(s[s.len() - 1], p));
                }
            } else {
                assert(line_key(sub[i], p) <= line_key(sub[j], p));
            }
        }
    }
}

/// The row sort orders the lines top to bottom.
proof fn lemma_sort_lines_ordered(s: Seq<Seq<TextChar>>, p: SelParams)
    ensures
        rows_ordered(sort_lines(s, p), p),
    decreases s.len(),
{
    if s.len() > 0 {
        lemma_sort_lines_ordered(s.drop_last(), p);
        lemma_insert_line_ordered(sort_lines(s.drop_last(), p), s.last(), p);
    }
}

/// Filtering keeps whatever row order the lines had.
proof fn lemma_filter_rows_ordered(
    ls: Seq<Seq<TextChar>>,
    p: SelParams,
    pred: spec_fn(Seq<TextChar>) -> bool,
)
    requires
        rows_ordered(ls, p),
    ensures
        rows_ordered(ls.filter(pred), p),
    decreases ls.len(),
{
    reveal_with_fuel(Seq::filter, 2);
    if ls.len() > 0 {
        assert(rows_ordered(ls.drop_last(), p)) by {
            assert(forall|k: int|
                0 <= k < ls.drop_last().len() ==> ls.drop_last()[k] == #[trigger] ls[k]);
        }
        lemma_filter_rows_ordered(ls.drop_last(), p, pred);
        lemma_filter_elems(ls.drop_last(), pred);
        let sub = ls.drop_last().filter(pred);
        if pred(ls.last()) {
            let out = sub.push(ls.last());
            assert forall|i: int, j: int|
                0 <= i < j < out.len() implies line_key(#[trigger] out[i], p) <= line_key(
                #[trigger] out[j],
                p,
            ) by {
                if j == out.len() - 1 {
                    assert(ls.drop_last().contains(sub[i]));
                    let k = choose|k: int|
                        0 <= k < ls.drop_last().len() && ls.drop_last()[k] == sub[i];
                    assert(line_key(ls[k], p) <= line_key(ls[ls.len() - 1], p));
                } else {
                    assert(line_key(sub[i], p) <= line_key(sub[j], p));
                }
            }
            assert(ls.filter(pred) == out);
        } else {
            assert(ls.filter(pred) == sub);
        }
    }
}

/// Law: the lines the engine works through are ordered top to bottom.  The
/// clustered lines are sorted by their anchor's screen row, ascending, and
/// the drag's hit filter keeps that order, so a multi-line selection's
/// lines — and with them the joined text and the emitted rectangles — run
/// from the top of the image downward.
pub proof fn lemma_lines_top_to_bottom(chars: Seq<TextChar>, p: SelParams)
    ensures
        rows_ordered(sort_lines(cluster(chars, p), p), p),
        rows_ordered(sort_lines(cluster(chars, p), p).filter(|l: Seq<TextChar>| line_hit(l, p)), p),
{
    lemma_sort_lines_ordered(cluster(chars, p), p);
    lemma_filter_rows_ordered(sort_lines(cluster(chars, p), p), p, |l: Seq<TextChar>| line_hit(l, p));
}

/// Every element of a filtered sequence comes from the original.
proof fn lemma_filter_elems<A>(s: Seq<A>, pred: spec_fn(A) -> bool)
    ensures
        forall|i: int|
            0 <= i < s.filter(pred).len() ==> s.contains(#[trigger] s.filter(pred)[i]),
    decreases s.len(),
{
    reveal_with_fuel(Seq::filter, 2);
    if s.len() > 0 {
        lemma_filter_elems(s.drop_last(), pred);
        assert(forall|x: A| s.drop_last().contains(x) ==> s.contains(x)) by {
            assert(forall|k: int|
                0 <= k < s.drop_last().len() ==> s.drop_last()[k] == #[trigger] s[k]);
        }
        assert(s.contains(s.last())) by {
            assert(s[s.len() - 1] == s.last());
        }
        let sub = s.drop_last().filter(pred);
        assert forall|i: int|
            0 <= i < s.filter(pred).len() implies s.contains(#[trigger] s.filter(pred)[i]) by {
            if pred(s.last()) {
                assert(s.filter(pred) == sub.push(s.last()));
                if i < sub.len() {
                    assert(s.filter(pred)[i] == sub[i]);
                } else {
                    assert(s.filter(pred)[i] == s.last());
                }
            } else {
                assert(s.filter(pred) == sub);
            }
        }
    }
}

/// Every line of an insertion's result is the inserted line or one of the
/// original lines.
proof fn lemma_insert_line_elems(s: Seq<Seq<TextChar>>, l: Seq<TextChar>, p: SelParams)
    ensures
        forall|i: int|
            0 <= i < insert_line(s, l, p).len() ==> s.contains(#[trigger] insert_line(s, l, p)[i])
                || insert_line(s, l, p)[i] == l,
    decreases s.len(),
{
    if s.len() == 0 {
    } else if line_key(s.last(), p) <= line_key(l, p) {
        assert(forall|i: int| 0 <= i < s.len() ==> s.contains(#[trigger] s[i]));
    } else {
        lemma_insert_line_elems(s.drop_last(), l, p);
        assert(forall|x: Seq<TextChar>| s.drop_last().contains(x) ==> s.contains(x)) by {
            assert(forall|k: int|
                0 <= k < s.drop_last().len() ==> s.drop_last()[k] == #[trigger] s[k]);
        }
        assert(s.contains(s.last())) by {
            assert(s[s.len() - 1] == s.last());
        }
        let sub = insert_line(s.drop_last(), l, p);
        assert(forall|i: int|
            0 <= i < sub.push(s.last()).len() ==> sub.push(s.last())[i] == if i < sub.len() {
                sub[i]
            } else {
                s.last()
            });
    }
}

/// Law: a zero-size drag hitting at most one line, where no in-bounds glyph
/// of any hit line spans the drag's point, selects nothing: empty text and
/// no rectangles.  (With overlapping lines more than one line can be hit
/// even by a point, and the multi-line policies may then select characters
/// beside the point; such inputs are excluded.)
pub proof fn lemma_point_drag_selects_nothing(
    chars: Seq<TextChar>,
    doc_w: int,
    doc_h: int,
    img_w: int,
    img_h: int,
    x: int,
    y: int,
)
    requires
        ({
            let p = mk_params(doc_w, doc_h, img_w, img_h, x, y, x, y);
            let hit = hit_lines(sort_each(sort_lines(cluster(chars, p), p)), p);
            (forall|i: int, j: int|
                0 <= i < hit.len() && 0 <= j < valid_of(hit[i], p).len() ==> !char_in_x_range(
                    #[trigger] valid_of(hit[i], p)[j],
                    p,
                )) && hit.len() <= 1
        }),
    ensures
        ({
            let p = mk_params(doc_w, doc_h, img_w, img_h, x, y, x, y);
            select_spec(chars, p) == (Seq::<char>::empty(), Seq::<RegionView>::empty())
        }),
{
    let p = mk_params(doc_w, doc_h, img_w, img_h, x, y, x, y);
    let sel = hit_lines(sort_each(sort_lines(cluster(chars, p), p)), p);
    if sel.len() == 0 {
        assert(text_parts(sel, p) =~= Seq::<Seq<char>>::empty());
        reveal_with_fuel(Seq::filter, 2);
        assert(selected_text(sel, p) == Seq::<char>::empty());
        assert(selected_regions(sel, p) == Seq::<RegionView>::empty());
    } else {
        let l = sel[0];
        let v = valid_of(l, p);
        let r = v.filter(|c: TextChar| char_in_x_range(c, p));
        assert(r.len() == 0) by {
            if r.len() > 0 {
                lemma_filter_elems(v, |c: TextChar| char_in_x_range(c, p));
                Seq::lemma_filter_pred(v, |c: TextChar| char_in_x_range(c, p), 0);
                assert(char_in_x_range(r[0], p));
                assert(v.contains(r[0]));
                let vi = choose|vi: int| 0 <= vi < v.len() && v[vi] == r[0];
                assert(!char_in_x_range(valid_of(sel[0], p)[vi], p));
            }
        }
        assert(survivors(l, 0, 1, p) == r);
        assert(line_text(l, 0, 1, p).len() == 0) by {
            lemma_sort_chars_wf(r);
        }
        assert(text_parts(sel, p) =~= seq![line_text(l, 0, 1, p)]);
        reveal_with_fuel(Seq::filter, 3);
        assert(text_parts(sel, p).filter(|t: Seq<char>| t.len() > 0) == Seq::<Seq<char>>::empty())
            by {
            assert(text_parts(sel, p).drop_last() =~= Seq::<Seq<char>>::empty());
        }
        assert(selected_text(sel, p) == Seq::<char>::empty());
        assert(region_of(l, 0, 1, p) is None);
        assert(regions_upto(sel, 1, 0, p) == Seq::<RegionView>::empty());
        assert(regions_upto(sel, 1, 1, p) =~= Seq::<RegionView>::empty());
        assert(sel.len() == 1);
        assert(selected_regions(sel, p) =~= Seq::<RegionView>::empty());
    }
}

} // verus!
