//! A labelled box given by its four edges, and the measures taken of it.

use vstd::prelude::*;
use crate::text::push_signed_decimal;
use crate::text::signed_decimal;

verus! {

/// The absolute value of an integer.
pub open spec fn abs(x: int) -> int {
    if x < 0 {
        -x
    } else {
        x
    }
}

/// A box with a label, given by the coordinates of its edges.
pub struct MyBox {
    pub label: String,
    pub top: i32,
    pub left: i32,
    pub right: i32,
    pub bottom: i32,
}

/// Two kinds of shape, each with a number of its own.
#[derive(Debug, Clone, Copy, PartialEq, Eq, Structural)]
pub enum Sharp {
    Rectangle,
    Triangle,
}

impl Sharp {
    /// The number of the shape: 1 for a rectangle, 3 for a triangle.
    pub fn code(&self) -> (n: u8)
        ensures
            n == (match self {
                Sharp::Rectangle => 1u8,
                Sharp::Triangle => 3u8,
            }),
    {
        match self {
            Sharp::Rectangle => 1,
            Sharp::Triangle => 3,
        }
    }
}

/// Addition of two numbers, for whatever implements it.
#[allow(non_camel_case_types)]
pub trait tangle {
    /// The sum of `x` and `y`; the sum must fit in an `i32`.
    fn add(&self, x: i32, y: i32) -> (r: i32)
        requires
            i32::MIN <= x + y <= i32::MAX,
        ensures
            r == x + y,
    {
        x + y
    }
}

/// The absolute difference of two coordinates; it must fit in an `i32`.
fn edge_distance(from: i32, to: i32) -> (d: i32)
    requires
        -i32::MAX <= to - from <= i32::MAX,
    ensures
        d == abs(to - from),
{
    let diff = to - from;
    if diff < 0 {
        -diff
    } else {
        diff
    }
}

impl MyBox {
    /// The distance between the top and the bottom edge.
    pub open spec fn height(&self) -> int {
        abs(self.bottom - self.top)
    }

    /// The distance between the left and the right edge.
    pub open spec fn width(&self) -> int {
        abs(self.right - self.left)
    }

    /// Both distances can be taken in `i32` arithmetic.
    pub open spec fn edges_in_range(&self) -> bool {
        &&& -i32::MAX <= self.bottom - self.top <= i32::MAX
        &&& -i32::MAX <= self.right - self.left <= i32::MAX
    }

    /// The length of the border: twice the sum of height and width, which
    /// must fit in an `i32`.
    pub fn circumference(&self) -> (c: u32)
        requires
            self.edges_in_range(),
            (self.height() + self.width()) * 2 <= i32::MAX,
        ensures
            c == (self.height() + self.width()) * 2,
    {
        let height = edge_distance(self.top, self.bottom);
        let width = edge_distance(self.left, self.right);
        ((height + width) * 2) as u32
    }

    /// The area: height times width, which must fit in an `i32`.
    pub fn area(&self) -> (a: u32)
        requires
            self.edges_in_range(),
            self.height() * self.width() <= i32::MAX,
        ensures
            a == self.height() * self.width(),
    {
        let height = edge_distance(self.top, self.bottom);
        let width = edge_distance(self.left, self.right);
        proof {
            assert(0 <= height * width) by (nonlinear_arith)
                requires
                    0 <= height,
                    0 <= width,
            ;
        }
        (height * width) as u32
    }

    /// The text that debug output shows: `MMMMBOX(top, bottom, left, right)`.
    pub open spec fn debug_text(&self) -> Seq<char> {
        "MMMMBOX("@ + signed_decimal(self.top as int) + ", "@ + signed_decimal(self.bottom as int)
            + ", "@ + signed_decimal(self.left as int) + ", "@ + signed_decimal(
            self.right as int,
        ) + ")"@
    }

    /// The text that display shows: `(top:.., left:..,right:..,bottom:..)`.
    pub open spec fn display_text(&self) -> Seq<char> {
        "(top:"@ + signed_decimal(self.top as int) + ", left:"@ + signed_decimal(self.left as int)
            + ",right:"@ + signed_decimal(self.right as int) + ",bottom:"@ + signed_decimal(
            self.bottom as int,
        ) + ")"@
    }

    /// The debug text of the box.
    pub fn to_debug_string(&self) -> (s: String)
        ensures
            s@ == self.debug_text(),
    {
        let mut s = String::new();
        s.append("MMMMBOX(");
        push_signed_decimal(&mut s, self.top as i64);
        s.append(", ");
        push_signed_decimal(&mut s, self.bottom as i64);
        s.append(", ");
        push_signed_decimal(&mut s, self.left as i64);
        s.append(", ");
        push_signed_decimal(&mut s, self.right as i64);
        s.append(")");
        proof {
            assert(s@ =~= self.debug_text());
        }
        s
    }

    /// The display text of the box.
    pub fn to_display_string(&self) -> (s: String)
        ensures
            s@ == self.display_text(),
    {
        let mut s = String::new();
        s.append("(top:");
        push_signed_decimal(&mut s, self.top as i64);
        s.append(", left:");
        push_signed_decimal(&mut s, self.left as i64);
        s.append(",right:");
        push_signed_decimal(&mut s, self.right as i64);
        s.append(",bottom:");
        push_signed_decimal(&mut s, self.bottom as i64);
        s.append(")");
        proof {
            assert(s@ =~= self.display_text());
        }
        s
    }
}

/// Swapping the top and bottom edge, or the left and right edge, changes
/// neither the circumference nor the area.
pub proof fn measures_ignore_edge_order(b: MyBox, c: MyBox)
    requires
        c.top == b.bottom,
        c.bottom == b.top,
        c.left == b.right,
        c.right == b.left,
    ensures
        c.height() == b.height(),
        c.width() == b.width(),
        (c.height() + c.width()) * 2 == (b.height() + b.width()) * 2,
        c.height() * c.width() == b.height() * b.width(),
        c.edges_in_range() == b.edges_in_range(),
{
}

/// The height and the width of a box are the distances between its
/// opposite edges, each taken on its own: the height depends only on the
/// top and bottom edge, the width only on the left and right edge.
pub proof fn box_extents(b: MyBox)
    ensures
        b.height() == (if b.bottom >= b.top {
            b.bottom - b.top
        } else {
            b.top - b.bottom
        }),
        b.width() == (if b.right >= b.left {
            b.right - b.left
        } else {
            b.left - b.right
        }),
{
}

/// Moving the right edge by `k` further from the left edge widens the box
/// by `k` and grows its area by `k` times its height, whatever the height.
pub proof fn widening_grows_area(b: MyBox, c: MyBox, k: int)
    requires
        c.top == b.top,
        c.bottom == b.bottom,
        c.left == b.left,
        b.right >= b.left,
        k >= 0,
        c.right == b.right + k,
    ensures
        c.width() == b.width() + k,
        c.height() * c.width() == b.height() * b.width() + k * b.height(),
        (c.height() + c.width()) * 2 == (b.height() + b.width()) * 2 + 2 * k,
{
    assert(c.height() * c.width() == b.height() * b.width() + k * b.height()) by (nonlinear_arith)
        requires
            c.height() == b.height(),
            c.width() == b.width() + k,
    ;
}

} // verus!
