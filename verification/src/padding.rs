//! Placement of an image on a larger canvas.

use vstd::prelude::*;
use crate::pixels::{is_placed, RgbImage};

verus! {

/// Where an image sits on the canvas that pads it.
#[derive(Clone, Copy, Debug, PartialEq, Eq)]
pub enum Position {
    Top,
    Bottom,
    Left,
    Right,
    TopLeft,
    TopRight,
    BottomLeft,
    BottomRight,
    Center,
}

/// How an image is aligned along one axis of the canvas.
pub enum Alignment {
    Start,
    Middle,
    End,
}

impl Position {
    /// The alignment along the horizontal axis.
    pub open spec fn horizontal(self) -> Alignment {
        match self {
            Position::Left | Position::TopLeft | Position::BottomLeft => Alignment::Start,
            Position::Right | Position::TopRight | Position::BottomRight => Alignment::End,
            Position::Top | Position::Bottom | Position::Center => Alignment::Middle,
        }
    }

    /// The alignment along the vertical axis.
    pub open spec fn vertical(self) -> Alignment {
        match self {
            Position::Top | Position::TopLeft | Position::TopRight => Alignment::Start,
            Position::Bottom | Position::BottomLeft | Position::BottomRight => Alignment::End,
            Position::Left | Position::Right | Position::Center => Alignment::Middle,
        }
    }
}

/// The offset that an alignment gives to an image when the canvas is
/// `slack` pixels longer than the image along that axis. A middle alignment
/// rounds down, so an odd slack leaves the larger margin after the image.
pub open spec fn aligned_offset(slack: int, alignment: Alignment) -> int {
    match alignment {
        Alignment::Start => 0,
        Alignment::Middle => slack / 2,
        Alignment::End => slack,
    }
}

/// The top-left corner of an image of `size` placed at `position` on a canvas
/// of `pad_size`, or `None` where the image does not fit on the canvas.
pub open spec fn placement(size: (int, int), pad_size: (int, int), position: Position) -> Option<
    (int, int),
> {
    if size.0 > pad_size.0 || size.1 > pad_size.1 {
        None
    } else {
        Some(
            (
                aligned_offset(pad_size.0 - size.0, position.horizontal()),
                aligned_offset(pad_size.1 - size.1, position.vertical()),
            ),
        )
    }
}

/// Computes where an image of `size` (width, height) goes on a canvas of
/// `pad_size` for the given `position`.
pub fn to_position(size: [u32; 2], pad_size: [u32; 2], position: &Position) -> (r: Option<
    (i64, i64),
>)
    ensures
        r is Some <==> size[0] <= pad_size[0] && size[1] <= pad_size[1],
        match r {
            Some((x, y)) => placement(
                (size[0] as int, size[1] as int),
                (pad_size[0] as int, pad_size[1] as int),
                *position,
            ) == Some((x as int, y as int)),
            None => placement(
                (size[0] as int, size[1] as int),
                (pad_size[0] as int, pad_size[1] as int),
                *position,
            ) is None,
        },
{
    let width: u32 = size[0];
    let height: u32 = size[1];
    let pad_width: u32 = pad_size[0];
    let pad_height: u32 = pad_size[1];

    if width > pad_width || height > pad_height {
        return None;
    }
    let (x, y): (u32, u32) = match position {
        Position::Top => ((pad_width - width) / 2, 0),
        Position::Bottom => ((pad_width - width) / 2, pad_height - height),
        Position::Left => (0, (pad_height - height) / 2),
        Position::Right => (pad_width - width, (pad_height - height) / 2),
        Position::TopLeft => (0, 0),
        Position::TopRight => (pad_width - width, 0),
        Position::BottomLeft => (0, pad_height - height),
        Position::BottomRight => (pad_width - width, pad_height - height),
        Position::Center => ((pad_width - width) / 2, (pad_height - height) / 2),
    };
    Some((x as i64, y as i64))
}

/// The side of the smallest square that holds an image of the given size.
pub open spec fn square_side(width: nat, height: nat) -> nat {
    if width > height {
        width
    } else {
        height
    }
}

/// The top-left corner of an image of the given size centred on its square.
pub open spec fn centred_origin(width: nat, height: nat) -> (int, int) {
    ((square_side(width, height) - width) / 2, (square_side(width, height) - height) / 2)
}

/// Padding of an image onto a canvas of one colour.
pub trait Padding: Sized {
    /// Pads the image to `pad_size` (width, height) with `color`, placing it
    /// at `position`, and returns the canvas with the image's top-left
    /// corner on it. An image that does not fit comes back as it is, with
    /// the corner (0, 0).
    fn padding(self, pad_size: [u32; 2], position: &Position, color: [u8; 3]) -> (Self, (u32, u32));

    /// Pads the image with `color` to the square of its longer side, centred.
    fn padding_square(self, color: [u8; 3]) -> (Self, (u32, u32));

    /// Where the image goes on a canvas of `pad_size` for `position`.
    fn to_position(&self, pad_size: [u32; 2], position: &Position) -> Option<(i64, i64)>;

    /// Where the image goes on the square of its longer side, and the size
    /// of that square.
    fn to_position_square(&self) -> Option<((i64, i64), (u32, u32))>;
}

impl Padding for RgbImage {
    fn padding(self, pad_size: [u32; 2], position: &Position, color: [u8; 3]) -> (r: (
        Self,
        (u32, u32),
    ))
        ensures
            match placement(
                (self.width() as int, self.height() as int),
                (pad_size[0] as int, pad_size[1] as int),
                *position,
            ) {
                Some(origin) => {
                    &&& is_placed(
                        r.0,
                        self,
                        (pad_size[0] as nat, pad_size[1] as nat),
                        origin,
                        color,
                    )
                    &&& r.1.0 == origin.0
                    &&& r.1.1 == origin.1
                },
                None => r.0 == self && r.1 == (0u32, 0u32),
            },
    {
        match Padding::to_position(&self, pad_size, position) {
            Some((x, y)) => {
                let left: u32 = x as u32;
                let top: u32 = y as u32;
                let canvas = self.placed_on(pad_size[0], pad_size[1], left, top, color);
                (canvas, (left, top))
            },
            None => (self, (0, 0)),
        }
    }

    fn padding_square(self, color: [u8; 3]) -> (r: (Self, (u32, u32)))
        ensures
            is_placed(
                r.0,
                self,
                (
                    square_side(self.width(), self.height()),
                    square_side(self.width(), self.height()),
                ),
                centred_origin(self.width(), self.height()),
                color,
            ),
            (r.1.0 as int, r.1.1 as int) == centred_origin(self.width(), self.height()),
    {
        match self.to_position_square() {
            Some((_, pad_size)) => self.padding([pad_size.0, pad_size.1], &Position::Center, color),
            None => (self, (0, 0)),
        }
    }

    fn to_position(&self, pad_size: [u32; 2], position: &Position) -> (r: Option<(i64, i64)>)
        ensures
            r is Some <==> self.width() <= pad_size[0] && self.height() <= pad_size[1],
            match r {
                Some((x, y)) => placement(
                    (self.width() as int, self.height() as int),
                    (pad_size[0] as int, pad_size[1] as int),
                    *position,
                ) == Some((x as int, y as int)),
                None => placement(
                    (self.width() as int, self.height() as int),
                    (pad_size[0] as int, pad_size[1] as int),
                    *position,
                ) is None,
            },
    {
        let (width, height) = self.dimensions();
        to_position([width, height], pad_size, position)
    }

    fn to_position_square(&self) -> (r: Option<((i64, i64), (u32, u32))>)
        ensures
            r matches Some((origin, pad_size)) && {
                &&& (origin.0 as int, origin.1 as int) == centred_origin(
                    self.width(),
                    self.height(),
                )
                &&& pad_size.0 == square_side(self.width(), self.height())
                &&& pad_size.1 == square_side(self.width(), self.height())
            },
    {
        let (width, height) = self.dimensions();
        let (pad_width, pad_height) = if width > height {
            (width, width)
        } else {
            (height, height)
        };
        match Padding::to_position(self, [pad_width, pad_height], &Position::Center) {
            Some((x, y)) => Some(((x, y), (pad_width, pad_height))),
            None => None,
        }
    }
}

} // verus!
