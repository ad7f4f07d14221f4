//! Eight-bit RGB colours.

use vstd::prelude::*;

verus! {

/// A colour of three independent 8-bit channels: red, green, blue.
#[derive(Clone, Copy, Default, Debug, PartialEq, Eq, Structural)]
pub struct Rgb(pub u8, pub u8, pub u8);

impl Rgb {
    /// Pure red.
    pub fn red() -> (c: Self)
        ensures
            c == Rgb(255, 0, 0),
    {
        Rgb(255, 0, 0)
    }

    /// Pure green.
    pub fn green() -> (c: Self)
        ensures
            c == Rgb(0, 255, 0),
    {
        Rgb(0, 255, 0)
    }

    /// Pure blue.
    pub fn blue() -> (c: Self)
        ensures
            c == Rgb(0, 0, 255),
    {
        Rgb(0, 0, 255)
    }

    /// Builds a colour from its three channels.
    pub fn new(r: u8, g: u8, b: u8) -> (c: Self)
        ensures
            c == Rgb(r, g, b),
    {
        Self(r, g, b)
    }

    /// The red channel.
    #[inline]
    pub fn r(&self) -> (v: u8)
        ensures
            v == self.0,
    {
        self.0
    }

    /// The green channel.
    #[inline]
    pub fn g(&self) -> (v: u8)
        ensures
            v == self.1,
    {
        self.1
    }

    /// The blue channel.
    #[inline]
    pub fn b(&self) -> (v: u8)
        ensures
            v == self.2,
    {
        self.2
    }
}

/// The sum of two channel values, wrapped into eight bits.
pub open spec fn wrap_channel(a: u8, b: u8) -> u8 {
    ((a + b) % 256) as u8
}

impl vstd::std_specs::ops::AddSpecImpl<Rgb> for Rgb {
    open spec fn obeys_add_spec() -> bool {
        true
    }

    open spec fn add_req(self, rhs: Rgb) -> bool {
        true
    }

    open spec fn add_spec(self, rhs: Rgb) -> Rgb {
        Rgb(wrap_channel(self.0, rhs.0), wrap_channel(self.1, rhs.1), wrap_channel(self.2, rhs.2))
    }
}

impl core::ops::Add<Rgb> for Rgb {
    type Output = Self;

    /// Adds two colours channel by channel; each channel wraps round on
    /// overflow.
    fn add(self, rhs: Rgb) -> (sum: Self) {
        Rgb(
            self.0.wrapping_add(rhs.0),
            self.1.wrapping_add(rhs.1),
            self.2.wrapping_add(rhs.2),
        )
    }
}

/// Channel `k` (0 red, 1 green, 2 blue) of a colour.
pub open spec fn channel(c: Rgb, k: int) -> u8 {
    if k == 0 {
        c.0
    } else if k == 1 {
        c.1
    } else {
        c.2
    }
}

/// The bytes of a pixel buffer: three per pixel, red first, pixels in order.
pub open spec fn rgb_bytes(buffer: Seq<Rgb>) -> Seq<u8> {
    Seq::new(3 * buffer.len(), |j: int| channel(buffer[j / 3], j % 3))
}

/// Flattens a pixel buffer into its bytes, three per pixel.
pub fn rgb_vec_to_u8_slice(buffer: &Vec<Rgb>) -> (res: Vec<u8>)
    ensures
        res@ == rgb_bytes(buffer@),
{
    let mut res: Vec<u8> = Vec::new();
    let mut i: usize = 0;
    while i < buffer.len()
        invariant
            i <= buffer.len(),
            res@ == rgb_bytes(buffer@.take(i as int)),
        decreases buffer.len() - i,
    {
        let c = buffer[i];
        res.push(c.0);
        res.push(c.1);
        res.push(c.2);
        i += 1;
        assert(res@ =~= rgb_bytes(buffer@.take(i as int)));
    }
    assert(buffer@.take(i as int) =~= buffer@);
    res
}

} // verus!
