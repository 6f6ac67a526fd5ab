//! The `glyf` table: the outlines of the glyphs.

use crate::bytes::{i16_bits, u16_be, ByteSink};
use crate::layout::{plain_step, Layouter, PassState, Place, Step};
use crate::open_type::content::{content_fits, content_fits_in, is_content_table, layout_content};
use crate::open_type::file::{LayoutableTable, LayoutableTableBox, LayoutedTableBox};
use crate::open_type::true_type::{Contour, Instrution, Point};
use vstd::prelude::*;

verus! {

/// The tag `glyf`.
pub open spec fn glyf_tag() -> Seq<u8> {
    seq![0x67u8, 0x6Cu8, 0x79u8, 0x66u8]
}

/// The outline of a glyph.
#[derive(Debug, Clone)]
pub enum Glyph {
    /// An outline made of contours.
    Simple {
        /// The contours.
        contours: Vec<Contour>,
        /// The instructions that fit the outline to the pixel grid.
        instructions: Vec<Instrution>,
    },
}

/// The points of the contours, one contour after the other.
pub open spec fn all_points(contours: Seq<Contour>) -> Seq<Point>
    decreases contours.len(),
{
    if contours.len() == 0 {
        Seq::empty()
    } else {
        all_points(contours.drop_last()) + contours.last().points@
    }
}

/// The least horizontal coordinate of the points and the origin.
pub open spec fn least_x(points: Seq<Point>) -> int
    decreases points.len(),
{
    if points.len() == 0 {
        0
    } else if points.last().x < least_x(points.drop_last()) {
        points.last().x as int
    } else {
        least_x(points.drop_last())
    }
}

/// The least vertical coordinate of the points and the origin.
pub open spec fn least_y(points: Seq<Point>) -> int
    decreases points.len(),
{
    if points.len() == 0 {
        0
    } else if points.last().y < least_y(points.drop_last()) {
        points.last().y as int
    } else {
        least_y(points.drop_last())
    }
}

/// The greatest horizontal coordinate of the points and the origin.
pub open spec fn greatest_x(points: Seq<Point>) -> int
    decreases points.len(),
{
    if points.len() == 0 {
        0
    } else if points.last().x > greatest_x(points.drop_last()) {
        points.last().x as int
    } else {
        greatest_x(points.drop_last())
    }
}

/// The greatest vertical coordinate of the points and the origin.
pub open spec fn greatest_y(points: Seq<Point>) -> int
    decreases points.len(),
{
    if points.len() == 0 {
        0
    } else if points.last().y > greatest_y(points.drop_last()) {
        points.last().y as int
    } else {
        greatest_y(points.drop_last())
    }
}

/// For each contour, the number of points up to its end, as two bytes.
pub open spec fn end_points_bytes(contours: Seq<Contour>) -> Seq<u8>
    decreases contours.len(),
{
    if contours.len() == 0 {
        Seq::empty()
    } else {
        end_points_bytes(contours.drop_last()) + u16_be(all_points(contours).len() as u16)
    }
}

/// One byte for each point: 1 on the curve, 0 off it.
pub open spec fn flags_bytes(points: Seq<Point>) -> Seq<u8>
    decreases points.len(),
{
    if points.len() == 0 {
        Seq::empty()
    } else {
        flags_bytes(points.drop_last()).push(
            if points.last().is_on_curve {
                1u8
            } else {
                0u8
            },
        )
    }
}

/// The horizontal coordinates, two bytes each.
pub open spec fn xs_bytes(points: Seq<Point>) -> Seq<u8>
    decreases points.len(),
{
    if points.len() == 0 {
        Seq::empty()
    } else {
        xs_bytes(points.drop_last()) + u16_be(i16_bits(points.last().x))
    }
}

/// The vertical coordinates, two bytes each.
pub open spec fn ys_bytes(points: Seq<Point>) -> Seq<u8>
    decreases points.len(),
{
    if points.len() == 0 {
        Seq::empty()
    } else {
        ys_bytes(points.drop_last()) + u16_be(i16_bits(points.last().y))
    }
}

/// The points of the first contours are the first points of all.
pub proof fn lemma_all_points_take(contours: Seq<Contour>, upto: int)
    requires
        0 <= upto < contours.len(),
    ensures
        all_points(contours.take(upto + 1)) == all_points(contours.take(upto))
            + contours[upto].points@,
{
    assert(contours.take(upto + 1).drop_last() =~= contours.take(upto));
}

/// The points of more contours are no fewer.
pub proof fn lemma_all_points_grow(contours: Seq<Contour>, upto: int)
    requires
        0 <= upto <= contours.len(),
    ensures
        all_points(contours.take(upto)).len() <= all_points(contours).len(),
    decreases contours.len() - upto,
{
    if upto < contours.len() {
        lemma_all_points_take(contours, upto);
        lemma_all_points_grow(contours, upto + 1);
    } else {
        assert(contours.take(upto) =~= contours);
    }
}

/// The bytes of an outline without instructions: the number of contours,
/// the box around the points and the origin, the end of each contour, no
/// instructions, then the flags and the coordinates of the points.
pub open spec fn simple_glyph_bytes(contours: Seq<Contour>) -> Seq<u8> {
    u16_be(contours.len() as u16) + u16_be(i16_bits(least_x(all_points(contours)) as i16))
        + u16_be(i16_bits(least_y(all_points(contours)) as i16)) + u16_be(
        i16_bits(greatest_x(all_points(contours)) as i16),
    ) + u16_be(i16_bits(greatest_y(all_points(contours)) as i16)) + end_points_bytes(contours)
        + u16_be(0) + flags_bytes(all_points(contours)) + xs_bytes(all_points(contours))
        + ys_bytes(all_points(contours))
}

/// The number of bytes of an outline without instructions.
pub open spec fn simple_glyph_len(contours: Seq<Contour>) -> nat {
    12 + 2 * contours.len() + 5 * all_points(contours).len()
}

impl Glyph {
    /// The outline's contours.
    pub open spec fn contours_spec(&self) -> Seq<Contour> {
        match self {
            Glyph::Simple { contours, instructions } => contours@,
        }
    }

    /// The outline has no instructions and at most 65535 points.
    pub open spec fn ready(&self) -> bool {
        match self {
            Glyph::Simple { contours, instructions } => instructions@.len() == 0 && all_points(
                contours@,
            ).len() <= 0xFFFF,
        }
    }

    /// The outline's bytes.
    pub open spec fn encoding(&self) -> Seq<u8> {
        simple_glyph_bytes(self.contours_spec())
    }

    /// The number of bytes of the outline.
    pub open spec fn byte_len(&self) -> nat {
        simple_glyph_len(self.contours_spec())
    }
}

/// An outline that was measured: its size and the box around its points
/// and the origin.
#[derive(Debug, Clone, Copy)]
pub struct LayoutedSimpleGlyph {
    size: usize,
    points: usize,
    x_min: i16,
    y_min: i16,
    x_max: i16,
    y_max: i16,
}

impl LayoutedSimpleGlyph {
    /// The measures are those of `contours`.
    pub closed spec fn measures(&self, contours: Seq<Contour>) -> bool {
        &&& self.size == simple_glyph_len(contours)
        &&& self.points == all_points(contours).len()
        &&& self.x_min == least_x(all_points(contours))
        &&& self.y_min == least_y(all_points(contours))
        &&& self.x_max == greatest_x(all_points(contours))
        &&& self.y_max == greatest_y(all_points(contours))
    }

    /// The size that `new` found.
    pub closed spec fn size_spec(&self) -> nat {
        self.size as nat
    }

    /// Measures an outline without instructions.
    pub fn new(contours: &Vec<Contour>, instructions: &Vec<Instrution>) -> (glyph: Self)
        requires
            instructions@.len() == 0,
            simple_glyph_len(contours@) <= usize::MAX,
        ensures
            glyph.measures(contours@),
            glyph.size_spec() == simple_glyph_len(contours@),
    {
        let mut points: usize = 0;
        let mut x_min: i16 = 0;
        let mut y_min: i16 = 0;
        let mut x_max: i16 = 0;
        let mut y_max: i16 = 0;
        let mut i: usize = 0;
        while i < contours.len()
            invariant
                i <= contours@.len(),
                simple_glyph_len(contours@) <= usize::MAX,
                points == all_points(contours@.take(i as int)).len(),
                x_min == least_x(all_points(contours@.take(i as int))),
                y_min == least_y(all_points(contours@.take(i as int))),
                x_max == greatest_x(all_points(contours@.take(i as int))),
                y_max == greatest_y(all_points(contours@.take(i as int))),
            decreases contours@.len() - i,
        {
            let contour = &contours[i];
            let ghost before = all_points(contours@.take(i as int));
            let mut k: usize = 0;
            proof {
                lemma_all_points_take(contours@, i as int);
                lemma_all_points_grow(contours@, i + 1);
                assert(before + contour.points@.take(0) =~= before);
            }
            while k < contour.points.len()
                invariant
                    k <= contour.points@.len(),
                    before.len() + contour.points@.len() <= usize::MAX,
                    points == before.len() + k,
                    x_min == least_x(before + contour.points@.take(k as int)),
                    y_min == least_y(before + contour.points@.take(k as int)),
                    x_max == greatest_x(before + contour.points@.take(k as int)),
                    y_max == greatest_y(before + contour.points@.take(k as int)),
                decreases contour.points@.len() - k,
            {
                let point = contour.points[k];
                proof {
                    let next = before + contour.points@.take(k + 1);
                    assert(next.drop_last() =~= before + contour.points@.take(k as int));
                    assert(next.last() == point);
                }
                if point.x < x_min {
                    x_min = point.x;
                }
                if point.y < y_min {
                    y_min = point.y;
                }
                if point.x > x_max {
                    x_max = point.x;
                }
                if point.y > y_max {
                    y_max = point.y;
                }
                points = points + 1;
                k += 1;
            }
            proof {
                assert(contour.points@.take(k as int) =~= contour.points@);
            }
            i += 1;
        }
        proof {
            assert(contours@.take(i as int) =~= contours@);
        }
        let size = 12 + contours.len() * 2 + points * 5;
        LayoutedSimpleGlyph { size, points, x_min, y_min, x_max, y_max }
    }

    /// The number of bytes of the outline.
    pub fn size(&self) -> (size: usize)
        ensures
            size == self.size_spec(),
    {
        self.size
    }

    /// Appends the outline's bytes to `sink`.
    pub fn write(&self, contours: &Vec<Contour>, sink: &mut ByteSink)
        requires
            self.measures(contours@),
            all_points(contours@).len() <= 0xFFFF,
        ensures
            final(sink)@ == old(sink)@ + simple_glyph_bytes(contours@),
    {
        let ghost points = all_points(contours@);
        sink.put_u16(#[verifier::truncate] (contours.len() as u16));
        sink.put_i16(self.x_min);
        sink.put_i16(self.y_min);
        sink.put_i16(self.x_max);
        sink.put_i16(self.y_max);
        let ghost head = sink@;
        let mut ends: u16 = 0;
        let mut i: usize = 0;
        assert(sink@ =~= head + end_points_bytes(contours@.take(0)));
        while i < contours.len()
            invariant
                i <= contours@.len(),
                points == all_points(contours@),
                points.len() <= 0xFFFF,
                ends == all_points(contours@.take(i as int)).len(),
                sink@ == head + end_points_bytes(contours@.take(i as int)),
            decreases contours@.len() - i,
        {
            proof {
                lemma_all_points_take(contours@, i as int);
                lemma_all_points_grow(contours@, i + 1);
                assert(contours@.take(i + 1).drop_last() =~= contours@.take(i as int));
            }
            ends = ends + (contours[i].points.len() as u16);
            sink.put_u16(ends);
            assert(sink@ =~= head + end_points_bytes(contours@.take(i + 1)));
            i += 1;
        }
        assert(contours@.take(i as int) =~= contours@);
        sink.put_u16(0);
        put_flags(contours, sink);
        put_xs(contours, sink);
        put_ys(contours, sink);
        assert(sink@ =~= old(sink)@ + simple_glyph_bytes(contours@));
    }
}

/// Appends one flag byte for each point.
fn put_flags(contours: &Vec<Contour>, sink: &mut ByteSink)
    ensures
        final(sink)@ == old(sink)@ + flags_bytes(all_points(contours@)),
{
    let mut i: usize = 0;
    assert(sink@ =~= old(sink)@ + flags_bytes(all_points(contours@.take(0))));
    while i < contours.len()
        invariant
            i <= contours@.len(),
            sink@ == old(sink)@ + flags_bytes(all_points(contours@.take(i as int))),
        decreases contours@.len() - i,
    {
        let contour = &contours[i];
        let ghost before = all_points(contours@.take(i as int));
        let mut k: usize = 0;
        proof {
            lemma_all_points_take(contours@, i as int);
            assert(before + contour.points@.take(0) =~= before);
        }
        while k < contour.points.len()
            invariant
                k <= contour.points@.len(),
                sink@ == old(sink)@ + flags_bytes(before + contour.points@.take(k as int)),
            decreases contour.points@.len() - k,
        {
            let point = contour.points[k];
            proof {
                let next = before + contour.points@.take(k + 1);
                assert(next.drop_last() =~= before + contour.points@.take(k as int));
                assert(next.last() == point);
            }
            if point.is_on_curve {
                sink.put_u8(1);
            } else {
                sink.put_u8(0);
            }
            assert(sink@ =~= old(sink)@ + flags_bytes(before + contour.points@.take(k + 1)));
            k += 1;
        }
        proof {
            assert(contour.points@.take(k as int) =~= contour.points@);
        }
        i += 1;
    }
    assert(contours@.take(i as int) =~= contours@);
}

/// Appends the horizontal coordinate of each point.
fn put_xs(contours: &Vec<Contour>, sink: &mut ByteSink)
    ensures
        final(sink)@ == old(sink)@ + xs_bytes(all_points(contours@)),
{
    let mut i: usize = 0;
    assert(sink@ =~= old(sink)@ + xs_bytes(all_points(contours@.take(0))));
    while i < contours.len()
        invariant
            i <= contours@.len(),
            sink@ == old(sink)@ + xs_bytes(all_points(contours@.take(i as int))),
        decreases contours@.len() - i,
    {
        let contour = &contours[i];
        let ghost before = all_points(contours@.take(i as int));
        let mut k: usize = 0;
        proof {
            lemma_all_points_take(contours@, i as int);
            assert(before + contour.points@.take(0) =~= before);
        }
        while k < contour.points.len()
            invariant
                k <= contour.points@.len(),
                sink@ == old(sink)@ + xs_bytes(before + contour.points@.take(k as int)),
            decreases contour.points@.len() - k,
        {
            let point = contour.points[k];
            proof {
                let next = before + contour.points@.take(k + 1);
                assert(next.drop_last() =~= before + contour.points@.take(k as int));
                assert(next.last() == point);
            }
            sink.put_i16(point.x);
            assert(sink@ =~= old(sink)@ + xs_bytes(before + contour.points@.take(k + 1)));
            k += 1;
        }
        proof {
            assert(contour.points@.take(k as int) =~= contour.points@);
        }
        i += 1;
    }
    assert(contours@.take(i as int) =~= contours@);
}

/// Appends the vertical coordinate of each point.
fn put_ys(contours: &Vec<Contour>, sink: &mut ByteSink)
    ensures
        final(sink)@ == old(sink)@ + ys_bytes(all_points(contours@)),
{
    let mut i: usize = 0;
    assert(sink@ =~= old(sink)@ + ys_bytes(all_points(contours@.take(0))));
    while i < contours.len()
        invariant
            i <= contours@.len(),
            sink@ == old(sink)@ + ys_bytes(all_points(contours@.take(i as int))),
        decreases contours@.len() - i,
    {
        let contour = &contours[i];
        let ghost before = all_points(contours@.take(i as int));
        let mut k: usize = 0;
        proof {
            lemma_all_points_take(contours@, i as int);
            assert(before + contour.points@.take(0) =~= before);
        }
        while k < contour.points.len()
            invariant
                k <= contour.points@.len(),
                sink@ == old(sink)@ + ys_bytes(before + contour.points@.take(k as int)),
            decreases contour.points@.len() - k,
        {
            let point = contour.points[k];
            proof {
                let next = before + contour.points@.take(k + 1);
                assert(next.drop_last() =~= before + contour.points@.take(k as int));
                assert(next.last() == point);
            }
            sink.put_i16(point.y);
            assert(sink@ =~= old(sink)@ + ys_bytes(before + contour.points@.take(k + 1)));
            k += 1;
        }
        proof {
            assert(contour.points@.take(k as int) =~= contour.points@);
        }
        i += 1;
    }
    assert(contours@.take(i as int) =~= contours@);
}

/// The number of points of the contours, if it is at most 65535.
pub fn count_points(contours: &Vec<Contour>) -> (points: Option<usize>)
    ensures
        points is Some <==> all_points(contours@).len() <= 0xFFFF,
        points matches Some(p) ==> p == all_points(contours@).len(),
{
    let mut points: usize = 0;
    let mut i: usize = 0;
    while i < contours.len()
        invariant
            i <= contours@.len(),
            points == all_points(contours@.take(i as int)).len(),
            points <= 0xFFFF,
        decreases contours@.len() - i,
    {
        proof {
            lemma_all_points_take(contours@, i as int);
            lemma_all_points_grow(contours@, i + 1);
        }
        let more = contours[i].points.len();
        if more > 0xFFFF || points + more > 0xFFFF {
            return None;
        }
        points = points + more;
        i += 1;
    }
    assert(contours@.take(i as int) =~= contours@);
    Some(points)
}

/// The flags take one byte and the coordinates two bytes for each point,
/// and the ends of the contours two bytes for each contour.
pub proof fn lemma_points_len(points: Seq<Point>)
    ensures
        flags_bytes(points).len() == points.len(),
        xs_bytes(points).len() == 2 * points.len(),
        ys_bytes(points).len() == 2 * points.len(),
    decreases points.len(),
{
    if points.len() > 0 {
        lemma_points_len(points.drop_last());
    }
}

/// The ends of the contours take two bytes for each contour.
pub proof fn lemma_end_points_len(contours: Seq<Contour>)
    ensures
        end_points_bytes(contours).len() == 2 * contours.len(),
    decreases contours.len(),
{
    if contours.len() > 0 {
        lemma_end_points_len(contours.drop_last());
    }
}

/// The outlines take as many bytes as they are measured to take.
pub proof fn lemma_glyphs_bytes_len(glyphs: Seq<Glyph>)
    ensures
        glyphs_bytes(glyphs).len() == glyphs_len(glyphs),
    decreases glyphs.len(),
{
    if glyphs.len() > 0 {
        lemma_glyphs_bytes_len(glyphs.drop_last());
        lemma_points_len(all_points(glyphs.last().contours_spec()));
        lemma_end_points_len(glyphs.last().contours_spec());
    }
}

/// The outlines one after the other.
pub open spec fn glyphs_bytes(glyphs: Seq<Glyph>) -> Seq<u8>
    decreases glyphs.len(),
{
    if glyphs.len() == 0 {
        Seq::empty()
    } else {
        glyphs_bytes(glyphs.drop_last()) + glyphs.last().encoding()
    }
}

/// The number of bytes of the outlines.
pub open spec fn glyphs_len(glyphs: Seq<Glyph>) -> nat
    decreases glyphs.len(),
{
    if glyphs.len() == 0 {
        0
    } else {
        glyphs_len(glyphs.drop_last()) + glyphs.last().byte_len()
    }
}

/// The outlines of fewer glyphs take no more bytes.
pub proof fn lemma_glyphs_len_grow(glyphs: Seq<Glyph>, upto: int)
    requires
        0 <= upto <= glyphs.len(),
    ensures
        glyphs_len(glyphs.take(upto)) <= glyphs_len(glyphs),
        upto < glyphs.len() ==> glyphs_len(glyphs.take(upto)) + glyphs[upto].byte_len()
            <= glyphs_len(glyphs),
    decreases glyphs.len() - upto,
{
    if upto < glyphs.len() {
        assert(glyphs.take(upto + 1).drop_last() =~= glyphs.take(upto));
        lemma_glyphs_len_grow(glyphs, upto + 1);
    } else {
        assert(glyphs.take(upto) =~= glyphs);
    }
}

/// The description of a `glyf` table.
pub struct Glyf {
    /// The outlines of the glyphs, in the order of their numbers.
    pub glyphs: Vec<Glyph>,
}

impl Glyf {
    /// Every outline is ready: see `Glyph::ready`.
    pub open spec fn ready(&self) -> bool {
        forall|i: int| 0 <= i < self.glyphs@.len() ==> (#[trigger] self.glyphs@[i]).ready()
    }

    /// The number of bytes that the table takes.
    pub open spec fn byte_len(&self) -> nat {
        glyphs_len(self.glyphs@)
    }

    /// The table's bytes: the outlines in order.
    pub open spec fn encoding(&self) -> Seq<u8> {
        glyphs_bytes(self.glyphs@)
    }

    /// The number of bytes that the table takes, if every outline is ready
    /// and the machine can count that far.
    pub fn checked_size(&self) -> (size: Option<usize>)
        ensures
            size is Some <==> self.ready() && self.byte_len() <= usize::MAX,
            size matches Some(s) ==> s == self.byte_len(),
    {
        let mut total: usize = 0;
        let mut i: usize = 0;
        while i < self.glyphs.len()
            invariant
                i <= self.glyphs@.len(),
                total == glyphs_len(self.glyphs@.take(i as int)),
                forall|k: int| 0 <= k < i ==> (#[trigger] self.glyphs@[k]).ready(),
            decreases self.glyphs@.len() - i,
        {
            proof {
                lemma_glyphs_len_grow(self.glyphs@, i as int);
                assert(self.glyphs@.take(i + 1).drop_last() =~= self.glyphs@.take(i as int));
            }
            match &self.glyphs[i] {
                Glyph::Simple { contours, instructions } => {
                    if instructions.len() > 0 {
                        assert(!self.glyphs@[i as int].ready());
                        return None;
                    }
                    match count_points(contours) {
                        Some(points) => {
                            let size = match contours.len().checked_mul(2) {
                                Some(ends) => ends.checked_add(12 + points * 5),
                                None => None,
                            };
                            let next = match size {
                                Some(size) => total.checked_add(size),
                                None => None,
                            };
                            match next {
                                Some(next) => {
                                    total = next;
                                },
                                None => {
                                    return None;
                                },
                            }
                        },
                        None => {
                            assert(!self.glyphs@[i as int].ready());
                            return None;
                        },
                    }
                },
            }
            i += 1;
        }
        assert(self.glyphs@.take(i as int) =~= self.glyphs@);
        Some(total)
    }

    /// The table's bytes and their number.
    pub fn encode(&self) -> (encoded: (usize, Vec<u8>))
        requires
            self.ready(),
            self.byte_len() <= usize::MAX,
        ensures
            encoded.0 == self.byte_len(),
            encoded.1@ == self.encoding(),
    {
        let mut sink = ByteSink::new();
        let mut total: usize = 0;
        let mut i: usize = 0;
        while i < self.glyphs.len()
            invariant
                i <= self.glyphs@.len(),
                self.ready(),
                self.byte_len() <= usize::MAX,
                total == glyphs_len(self.glyphs@.take(i as int)),
                sink@ == glyphs_bytes(self.glyphs@.take(i as int)),
            decreases self.glyphs@.len() - i,
        {
            proof {
                lemma_glyphs_len_grow(self.glyphs@, i as int);
                assert(self.glyphs@.take(i + 1).drop_last() =~= self.glyphs@.take(i as int));
                assert(self.glyphs@[i as int].ready());
            }
            match &self.glyphs[i] {
                Glyph::Simple { contours, instructions } => {
                    let measured = LayoutedSimpleGlyph::new(contours, instructions);
                    total = total + measured.size();
                    measured.write(contours, &mut sink);
                },
            }
            i += 1;
        }
        assert(self.glyphs@.take(i as int) =~= self.glyphs@);
        (total, sink.into_bytes())
    }

    /// The table takes exactly the bytes that it asks for.
    pub proof fn lemma_exact_size(&self)
        ensures
            self.encoding().len() == self.byte_len(),
    {
        lemma_glyphs_bytes_len(self.glyphs@);
    }

    /// The description as a table of any kind, to stand in a file.
    pub fn boxed(self) -> (boxed: LayoutableTableBox)
        ensures
            is_content_table(boxed, glyf_tag(), self.byte_len(), self.ready(), self.encoding()),
    {
        LayoutableTableBox { table: Box::new(self) }
    }
}

impl LayoutableTable for Glyf {
    open spec fn tag_spec(&self) -> Seq<u8> {
        glyf_tag()
    }

    open spec fn size(&self) -> nat {
        self.byte_len()
    }

    open spec fn fits(&self, place: Place) -> bool {
        self.ready() && content_fits(self.byte_len(), place)
    }

    open spec fn step_at(
        &self,
        place: Place,
        state: PassState,
        windows: Seq<Seq<u8>>,
        current_file: Seq<u8>,
    ) -> Step {
        plain_step(place.reservation(self.byte_len()), self.encoding(), windows)
    }

    fn tag(&self) -> (tag: [u8; 4]) {
        [0x67, 0x6C, 0x79, 0x66]
    }

    fn fits_in(&self, layouter: &Layouter) -> (fits: bool) {
        match self.checked_size() {
            Some(size) => content_fits_in(layouter, size),
            None => false,
        }
    }

    fn layout(&self, layouter: &mut Layouter) -> (laid: LayoutedTableBox) {
        let (size, content) = self.encode();
        layout_content(layouter, self.tag(), size, content)
    }
}

} // verus!
