//! Areas of rectangles, and shapes that describe how they are drawn.
use vstd::prelude::*;
use crate::text::{decimal, push_decimal, push_text, string_of};

verus! {

/// A rectangle by its side lengths.
#[derive(PartialEq, Eq, Structural, Clone, Copy, Debug)]
pub struct Rectangle {
    pub width: u32,
    pub height: u32,
}

impl Rectangle {
    /// Width times height.
    pub fn area(&self) -> (a: u32)
        requires
            self.width * self.height <= u32::MAX,
        ensures
            a == self.width * self.height,
    {
        self.width * self.height
    }
}

/// Width times height of `rectangle`.
#[allow(non_snake_case)]
pub fn calArea(rectangle: &Rectangle) -> (a: u32)
    requires
        rectangle.width * rectangle.height <= u32::MAX,
    ensures
        a == rectangle.width * rectangle.height,
{
    return rectangle.width * rectangle.height;
}

/// Something that can be drawn: `draw` gives the line that drawing it
/// shows.
pub trait Shape {
    fn draw(&self) -> String;
}

/// A rectangle drawn by its length and width.
#[derive(PartialEq, Eq, Structural, Clone, Copy, Debug)]
pub struct Figure {
    pub x: i32,
    pub y: i32,
}

/// The decimal text of `i`, with a `-` in front of a negative number.
pub open spec fn signed_decimal(i: int) -> Seq<char> {
    if i < 0 {
        seq!['-'] + decimal((-i) as nat)
    } else {
        decimal(i as nat)
    }
}

fn push_signed(out: &mut Vec<char>, i: i32)
    ensures
        final(out)@ == old(out)@ + signed_decimal(i as int),
{
    if i < 0 {
        out.push('-');
        let m: i64 = -(i as i64);
        push_decimal(out, m as u64);
        assert(final(out)@ =~= old(out)@ + signed_decimal(i as int));
    } else {
        push_decimal(out, i as u64);
    }
}

impl Shape for Figure {
    /// `绘制矩形，长=<x>，宽=<y>`.
    fn draw(&self) -> (s: String)
        ensures
            s@ == "绘制矩形，长="@ + signed_decimal(self.x as int) + "，宽="@ + signed_decimal(self.y as int),
    {
        let mut v: Vec<char> = Vec::new();
        push_text(&mut v, "绘制矩形，长=");
        push_signed(&mut v, self.x);
        push_text(&mut v, "，宽=");
        push_signed(&mut v, self.y);
        assert(v@ =~= "绘制矩形，长="@ + signed_decimal(self.x as int) + "，宽="@ + signed_decimal(self.y as int));
        string_of(v.as_slice())
    }
}

impl Shape for String {
    /// A note that a trait can be implemented for a type from elsewhere.
    fn draw(&self) -> (s: String)
        ensures
            s@ == "rust 接口更灵活，可不修改第三方代码实现接口"@,
    {
        "rust 接口更灵活，可不修改第三方代码实现接口".to_owned()
    }
}

} // verus!
