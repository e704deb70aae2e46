//! The scratch canvas: which pixels a stamp may touch, and what a movement does to a stroke.
//!
//! Positions are carried as bit patterns; distances, speeds and blending are worked out elsewhere
//! and come in as what was found.

use vstd::prelude::*;

verus! {

/// Width of the canvas in pixels.
pub const WIDTH: usize = 1180;

/// Height of the canvas in pixels.
pub const HEIGHT: usize = 780;

/// Bytes in the buffer, four to a pixel.
pub const BUFFER: usize = 3_681_600;

/// The first pixel of a stamp that would begin at `begin`.
pub open spec fn first_pixel(begin: int) -> int {
    if begin < 0 {
        0
    } else {
        begin
    }
}

/// The last pixel of a stamp that would end at `end`, on an axis of `size`.
pub open spec fn last_pixel(end: int, size: int) -> int {
    if end > size - 1 {
        size - 1
    } else if end < 0 {
        0
    } else {
        end
    }
}

/// The first and the last pixel of a stamp on an axis of `size`, from where it would begin and
/// end. A stamp that lies off the canvas comes to its edge.
pub fn clip(begin: i64, end: i64, size: usize) -> (r: (usize, usize))
    requires
        1 <= size <= i32::MAX,
        begin <= i32::MAX,
    ensures
        r.0 == first_pixel(begin as int),
        r.1 == last_pixel(end as int, size as int),
{
    let first: usize = if begin < 0 {
        0
    } else {
        begin as usize
    };
    let last: usize = if end > size as i64 - 1 {
        size - 1
    } else if end < 0 {
        0
    } else {
        end as usize
    };
    (first, last)
}

/// Where a pixel stands in the buffer.
pub open spec fn offset_of(px: int, py: int) -> int {
    (py * WIDTH + px) * 4
}

/// Where a pixel stands in the buffer.
pub fn offset(px: usize, py: usize) -> (i: usize)
    requires
        px < WIDTH,
        py < HEIGHT,
    ensures
        i == offset_of(px as int, py as int),
        i + 3 < BUFFER,
{
    (py * WIDTH + px) * 4
}

/// No two pixels share a byte.
pub proof fn law_pixels_are_apart(px: int, py: int, qx: int, qy: int)
    requires
        0 <= px < WIDTH,
        0 <= qx < WIDTH,
        (px, py) != (qx, qy),
    ensures
        offset_of(px, py) + 4 <= offset_of(qx, qy) || offset_of(qx, qy) + 4 <= offset_of(px, py),
{
}

/// A position, as two bit patterns.
#[derive(Debug, Clone, Copy, PartialEq, Eq, Structural)]
pub struct Point {
    pub x: u64,
    pub y: u64,
}

/// A line to draw.
#[derive(Debug, Clone, Copy, PartialEq, Eq, Structural)]
pub struct Segment {
    pub from: Point,
    pub to: Point,
}

/// What a movement did to the button.
#[derive(Debug, Clone, Copy, PartialEq, Eq, Structural)]
pub enum Edge {
    /// A stroke begins: speed and what was banked start from nothing.
    Began,
    Ended,
    Unchanged,
}

/// A stroke in progress, and what is drawn around it.
#[derive(Debug, Clone, Copy, PartialEq, Eq, Structural)]
pub struct Stroke {
    pub down: bool,
    pub ending: bool,
    /// The cursor's last position.
    pub raw: Option<Point>,
    /// The drawn point.
    pub anchor: Option<Point>,
    /// Where ink was last laid from. Displacement accumulates against this and not against the
    /// previous sample: slow motion would otherwise fail a threshold at every step.
    pub ink_from: Option<Point>,
    pub ghost_from: Option<Point>,
}

pub open spec fn or_else(a: Option<Point>, b: Option<Point>) -> Option<Point> {
    if a is Some {
        a
    } else {
        b
    }
}

/// What a state of the button does to a stroke.
pub open spec fn edge_of(s: Stroke, pressed: bool) -> Edge {
    if pressed && !s.down {
        Edge::Began
    } else if !pressed && s.down {
        Edge::Ended
    } else {
        Edge::Unchanged
    }
}

/// A stroke once the button was seen at a position.
pub open spec fn pressed_at(s: Stroke, at: Point, pressed: bool) -> Stroke {
    Stroke {
        down: pressed,
        ending: s.ending || edge_of(s, pressed) == Edge::Ended,
        anchor: if edge_of(s, pressed) == Edge::Unchanged {
            s.anchor
        } else {
            Some(at)
        },
        ink_from: if edge_of(s, pressed) == Edge::Began {
            Some(at)
        } else {
            s.ink_from
        },
        ..s
    }
}

/// A stroke whose drawn point was dragged.
pub open spec fn pulled_to(s: Stroke, at: Point, pulled: Option<Point>) -> Stroke {
    Stroke {
        anchor: if s.anchor is None {
            Some(at)
        } else {
            or_else(pulled, s.anchor)
        },
        ..s
    }
}

/// The ghost line that a movement draws, and the stroke after it.
pub open spec fn ghosted(s: Stroke, at: Point, far: bool) -> (Option<Segment>, Stroke) {
    match or_else(s.ghost_from, s.raw) {
        Some(from) => if far {
            (Some(Segment { from, to: at }), Stroke { ghost_from: Some(at), ..s })
        } else {
            (None, s)
        },
        None => (None, Stroke { ghost_from: Some(at), ..s }),
    }
}

/// The ink that a movement lays, and the stroke after it.
pub open spec fn inked(s: Stroke, before: Option<Point>, far: bool) -> (Option<Segment>, Stroke) {
    match (or_else(s.ink_from, before), s.anchor) {
        (Some(from), Some(to)) => if s.down && far {
            (Some(Segment { from, to }), Stroke { ink_from: Some(to), ..s })
        } else {
            (None, s)
        },
        _ => (None, s),
    }
}

/// The tail that the end of a movement lays, and the stroke after it.
pub open spec fn finished(s: Stroke, at: Point, apart: bool) -> (Option<Segment>, Stroke) {
    (
        match (s.ink_from, s.anchor) {
            (Some(from), Some(to)) => if s.ending && apart {
                Some(Segment { from, to })
            } else {
                None
            },
            _ => None,
        },
        Stroke {
            raw: Some(at),
            ending: false,
            ink_from: if s.ending {
                None
            } else {
                s.ink_from
            },
            ..s
        },
    )
}

impl Stroke {
    pub fn new() -> (r: Self)
        ensures
            r == (Stroke {
                down: false,
                ending: false,
                raw: None,
                anchor: None,
                ink_from: None,
                ghost_from: None,
            }),
    {
        Stroke {
            down: false,
            ending: false,
            raw: None,
            anchor: None,
            ink_from: None,
            ghost_from: None,
        }
    }

    /// Forget every position, as when the canvas is cleared.
    pub fn clear(&mut self)
        ensures
            *final(self) == (Stroke {
                raw: None,
                anchor: None,
                ink_from: None,
                ghost_from: None,
                ..*old(self)
            }),
    {
        self.raw = None;
        self.anchor = None;
        self.ink_from = None;
        self.ghost_from = None;
    }

    /// Follow the button. A stroke begins and ends with the drawn point on the cursor.
    pub fn press(&mut self, at: Point, pressed: bool) -> (r: Edge)
        ensures
            r == edge_of(*old(self), pressed),
            *final(self) == pressed_at(*old(self), at, pressed),
    {
        let was_down = self.down;
        self.down = pressed;
        if pressed && !was_down {
            self.anchor = Some(at);
            self.ink_from = Some(at);
            Edge::Began
        } else if !pressed && was_down {
            self.anchor = Some(at);
            self.ending = true;
            Edge::Ended
        } else {
            Edge::Unchanged
        }
    }

    /// Drag the drawn point: to where it was pulled, if the cursor is beyond the string's length,
    /// or onto the cursor where there is none yet. Where it was before.
    pub fn pull(&mut self, at: Point, pulled: Option<Point>) -> (r: Option<Point>)
        ensures
            r == old(self).anchor,
            *final(self) == pulled_to(*old(self), at, pulled),
    {
        let before = self.anchor;
        if before.is_none() {
            self.anchor = Some(at);
        } else if pulled.is_some() {
            self.anchor = pulled;
        }
        before
    }

    /// Where the ghost line of the cursor would start.
    pub fn ghost_start(&self) -> (r: Option<Point>)
        ensures
            r == or_else(self.ghost_from, self.raw),
    {
        if self.ghost_from.is_some() {
            self.ghost_from
        } else {
            self.raw
        }
    }

    /// Draw the ghost line as far as the cursor, if that is far enough from where it starts.
    pub fn ghost(&mut self, at: Point, far: bool) -> (r: Option<Segment>)
        ensures
            (r, *final(self)) == ghosted(*old(self), at, far),
    {
        match self.ghost_start() {
            Some(from) => {
                if far {
                    self.ghost_from = Some(at);
                    Some(Segment { from, to: at })
                } else {
                    None
                }
            },
            None => {
                self.ghost_from = Some(at);
                None
            },
        }
    }

    /// The ink that is owed: from where it was last laid to the drawn point.
    pub fn owed(&self, before: Option<Point>) -> (r: Option<Segment>)
        ensures
            r == match (or_else(self.ink_from, before), self.anchor) {
                (Some(from), Some(to)) => Some(Segment { from, to }),
                _ => None,
            },
    {
        let from = if self.ink_from.is_some() {
            self.ink_from
        } else {
            before
        };
        match (from, self.anchor) {
            (Some(from), Some(to)) => Some(Segment { from, to }),
            _ => None,
        }
    }

    /// Lay the ink that is owed while the button is down, if it goes far enough. Otherwise the
    /// displacement keeps banking.
    pub fn ink(&mut self, before: Option<Point>, far: bool) -> (r: Option<Segment>)
        ensures
            (r, *final(self)) == inked(*old(self), before, far),
    {
        if !self.down || !far {
            return None;
        }
        let r = self.owed(before);
        if r.is_some() {
            self.ink_from = self.anchor;
        }
        r
    }

    /// Finish with a movement: lay the tail of a stroke that ended, if there is any of it, and
    /// remember where the cursor is.
    pub fn finish(&mut self, at: Point, apart: bool) -> (r: Option<Segment>)
        ensures
            (r, *final(self)) == finished(*old(self), at, apart),
    {
        let mut r: Option<Segment> = None;
        if self.ending {
            if apart {
                r = self.owed(None);
            }
            self.ink_from = None;
            self.ending = false;
        }
        self.raw = Some(at);
        r
    }
}

/// What becomes of the estimate of the drawn point's speed.
#[derive(Debug, Clone, Copy, PartialEq, Eq, Structural)]
pub enum SpeedStep {
    /// Blend in the speed of this movement alone.
    Instant,
    /// Blend in the speed of everything banked, and start banking anew.
    Banked,
    /// Drop what was banked: dividing by a long stall would make a hotspot on resumption.
    Discard,
    /// Go on banking. A stalled point holds its speed rather than being dragged to zero.
    Bank,
}

/// What becomes of the speed.
pub open spec fn speed_of(hold: bool, far: bool, long: bool) -> SpeedStep {
    if !hold {
        SpeedStep::Instant
    } else if far {
        SpeedStep::Banked
    } else if long {
        SpeedStep::Discard
    } else {
        SpeedStep::Bank
    }
}

/// What becomes of the speed: `hold` where a stalled point holds it, `far` where what was banked
/// goes far enough to count as movement, `long` where it took too long.
pub fn speed_step(hold: bool, far: bool, long: bool) -> (r: SpeedStep)
    ensures
        r == speed_of(hold, far, long),
{
    if !hold {
        SpeedStep::Instant
    } else if far {
        SpeedStep::Banked
    } else if long {
        SpeedStep::Discard
    } else {
        SpeedStep::Bank
    }
}

/// A stamp never leaves the canvas, and one that lies on it is not cut.
pub proof fn law_a_stamp_stays_on_the_canvas(begin: int, end: int, size: int)
    requires
        size >= 1,
    ensures
        0 <= first_pixel(begin),
        0 <= last_pixel(end, size) < size,
        begin >= 0 ==> first_pixel(begin) == begin,
        0 <= end < size ==> last_pixel(end, size) == end,
        begin < 0 ==> first_pixel(begin) == 0,
        end >= size ==> last_pixel(end, size) == size - 1,
        end < 0 ==> last_pixel(end, size) == 0,
{
}

/// Pixels stand row by row, four bytes to each, from the first byte of the buffer to its last.
pub proof fn law_pixels_stand_row_by_row(px: int, py: int)
    ensures
        offset_of(0, 0) == 0,
        offset_of(px + 1, py) == offset_of(px, py) + 4,
        offset_of(px, py + 1) == offset_of(px, py) + 4 * 1180,
        offset_of(1179, 779) + 4 == BUFFER,
        BUFFER == 1180 * 780 * 4,
{
    assert((py + 1) * WIDTH == py * WIDTH + WIDTH) by (nonlinear_arith);
}

/// A stroke begins and ends with the drawn point on the cursor, and ink starts where the button
/// went down. A button that stays as it was moves nothing.
pub proof fn law_a_stroke_begins_and_ends_on_the_cursor(s: Stroke, at: Point, pressed: bool)
    ensures
        pressed_at(s, at, pressed).down == pressed,
        edge_of(s, pressed) == Edge::Unchanged <==> pressed == s.down,
        edge_of(s, pressed) == Edge::Began <==> pressed && !s.down,
        pressed != s.down ==> pressed_at(s, at, pressed).anchor == Some(at),
        pressed && !s.down ==> pressed_at(s, at, pressed).ink_from == Some(at),
        !pressed && s.down ==> pressed_at(s, at, pressed).ending && pressed_at(
            s,
            at,
            pressed,
        ).ink_from == s.ink_from,
        pressed == s.down ==> pressed_at(s, at, pressed) == s,
        pressed_at(s, at, pressed).raw == s.raw,
        pressed_at(s, at, pressed).ghost_from == s.ghost_from,
{
}

/// The drawn point goes where it is pulled, stays where it is not, and starts on the cursor.
pub proof fn law_the_drawn_point_follows_the_pull(s: Stroke, at: Point, to: Point)
    ensures
        s.anchor is None ==> pulled_to(s, at, None).anchor == Some(at),
        s.anchor is Some ==> pulled_to(s, at, Some(to)).anchor == Some(to),
        s.anchor is Some ==> pulled_to(s, at, None) == s,
        pulled_to(s, at, Some(to)).ink_from == s.ink_from,
        pulled_to(s, at, Some(to)).down == s.down,
{
}

/// Ink is laid without a gap: each piece starts where the last one ended, reaches the drawn point,
/// and what is too short to lay is kept for the next. None is laid while the button is up.
pub proof fn law_ink_is_laid_without_a_gap(
    s: Stroke,
    before: Option<Point>,
    far: bool,
    from: Point,
    to: Point,
)
    requires
        s.ink_from == Some(from),
        s.anchor == Some(to),
    ensures
        s.down && far ==> inked(s, before, far).0 == Some(Segment { from, to }) && inked(
            s,
            before,
            far,
        ).1.ink_from == Some(to),
        !far || !s.down ==> inked(s, before, far) == (None::<Segment>, s),
        inked(s, before, far).1.anchor == s.anchor,
        inked(s, before, far).1.down == s.down,
        s.ending ==> finished(s, to, true).0 == Some(Segment { from, to }),
        s.ending ==> finished(s, to, true).1.ink_from is None,
        !s.ending ==> finished(s, to, true).0 is None && finished(s, to, true).1.ink_from
            == s.ink_from,
        finished(s, to, false).0 is None,
        !finished(s, to, far).1.ending,
        finished(s, from, far).1.raw == Some(from),
{
}

/// The ghost line runs from where it was last drawn, or from the cursor's last position, to the
/// cursor, once that is far enough.
pub proof fn law_the_ghost_follows_the_cursor(s: Stroke, at: Point, last: Point)
    ensures
        s.ghost_from == Some(last) || (s.ghost_from is None && s.raw == Some(last)) ==> ghosted(
            s,
            at,
            true,
        ).0 == Some(Segment { from: last, to: at }) && ghosted(s, at, true).1.ghost_from == Some(at)
            && ghosted(s, at, false) == (None::<Segment>, s),
        s.ghost_from is None && s.raw is None ==> ghosted(s, at, true).0 is None && ghosted(
            s,
            at,
            true,
        ).1.ghost_from == Some(at),
        ghosted(s, at, true).1.ink_from == s.ink_from,
        ghosted(s, at, true).1.anchor == s.anchor,
{
}

/// A point that does not hold its speed goes by each movement; one that does goes by what was
/// banked once that is far enough, drops it after too long, and else goes on banking.
pub proof fn law_a_stalled_point_holds_its_speed(far: bool, long: bool)
    ensures
        speed_of(false, far, long) == SpeedStep::Instant,
        speed_of(true, true, long) == SpeedStep::Banked,
        speed_of(true, false, true) == SpeedStep::Discard,
        speed_of(true, false, false) == SpeedStep::Bank,
{
}

} // verus!
