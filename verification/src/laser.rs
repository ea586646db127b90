//! The laser material: its uniform buffer layout.
use vstd::prelude::*;
use crate::layout::{ne_bytes, write_word, lemma_ne_bytes_injective};

verus! {

/// Size in bytes of the laser material's uniform: a linear RGBA colour
/// followed by the beam width and the animation time, each a 32-bit float.
pub const LASER_UNIFORM_SIZE: usize = 24;

/// The values a laser material hands to its shader. Every field holds the
/// bit pattern of a 32-bit float (`f32::to_bits`): `base_color` the linear
/// red, green, blue and alpha components of the colour, `width` the beam
/// width and `time` the animation time.
#[derive(Clone, Copy, Debug, PartialEq, Eq)]
pub struct LaserMaterial {
    pub base_color: [u32; 4],
    pub width: u32,
    pub time: u32,
}

impl LaserMaterial {
    /// The bytes of the uniform buffer: colour, width, time, each word in
    /// native byte order.
    pub open spec fn uniform_bytes(self) -> Seq<u8> {
        ne_bytes(self.base_color[0]) + ne_bytes(self.base_color[1]) + ne_bytes(self.base_color[2])
            + ne_bytes(self.base_color[3]) + ne_bytes(self.width) + ne_bytes(self.time)
    }

    /// The number of bytes that `write_buffer_bytes` fills.
    pub fn buffer_byte_len(&self) -> (len: Option<usize>)
        ensures
            len == Some(LASER_UNIFORM_SIZE),
    {
        Some(LASER_UNIFORM_SIZE)
    }

    /// Writes the uniform into the first `LASER_UNIFORM_SIZE` bytes of
    /// `buffer` and leaves the bytes after them untouched.
    pub fn write_buffer_bytes(&self, buffer: &mut [u8])
        requires
            old(buffer)@.len() >= LASER_UNIFORM_SIZE,
        ensures
            final(buffer)@.len() == old(buffer)@.len(),
            final(buffer)@.subrange(0, LASER_UNIFORM_SIZE as int) == self.uniform_bytes(),
            final(buffer)@.subrange(0, 4) == ne_bytes(self.base_color[0]),
            final(buffer)@.subrange(4, 8) == ne_bytes(self.base_color[1]),
            final(buffer)@.subrange(8, 12) == ne_bytes(self.base_color[2]),
            final(buffer)@.subrange(12, 16) == ne_bytes(self.base_color[3]),
            final(buffer)@.subrange(16, 20) == ne_bytes(self.width),
            final(buffer)@.subrange(20, 24) == ne_bytes(self.time),
            final(buffer)@.subrange(LASER_UNIFORM_SIZE as int, old(buffer)@.len() as int)
                == old(buffer)@.subrange(LASER_UNIFORM_SIZE as int, old(buffer)@.len() as int),
    {
        let ghost b0 = buffer@;
        write_word(buffer, 0, self.base_color[0]);
        let ghost b1 = buffer@;
        write_word(buffer, 4, self.base_color[1]);
        let ghost b2 = buffer@;
        write_word(buffer, 8, self.base_color[2]);
        let ghost b3 = buffer@;
        write_word(buffer, 12, self.base_color[3]);
        let ghost b4 = buffer@;
        write_word(buffer, 16, self.width);
        let ghost b5 = buffer@;
        write_word(buffer, 20, self.time);
        assert(buffer@.subrange(0, 4) == b1.subrange(0, 4));
        assert(buffer@.subrange(4, 8) == b2.subrange(4, 8));
        assert(buffer@.subrange(8, 12) == b3.subrange(8, 12));
        assert(buffer@.subrange(12, 16) == b4.subrange(12, 16));
        assert(buffer@.subrange(16, 20) == b5.subrange(16, 20));
        assert(buffer@.subrange(0, 24) =~= buffer@.subrange(0, 4) + buffer@.subrange(4, 8)
            + buffer@.subrange(8, 12) + buffer@.subrange(12, 16) + buffer@.subrange(16, 20)
            + buffer@.subrange(20, 24));
        assert(buffer@.subrange(24, b0.len() as int) =~= b0.subrange(24, b0.len() as int));
        proof {
            lemma_laser_uniform_fields(*self);
        }
    }
}

/// Each field of a laser material sits at its fixed place in the uniform,
/// whatever the other fields hold: the colour's four components in bytes 0
/// to 16, the width in bytes 16 to 20, the time in bytes 20 to 24.
pub proof fn lemma_laser_uniform_fields(m: LaserMaterial)
    ensures
        m.uniform_bytes().len() == LASER_UNIFORM_SIZE,
        m.uniform_bytes().subrange(0, 4) == ne_bytes(m.base_color[0]),
        m.uniform_bytes().subrange(4, 8) == ne_bytes(m.base_color[1]),
        m.uniform_bytes().subrange(8, 12) == ne_bytes(m.base_color[2]),
        m.uniform_bytes().subrange(12, 16) == ne_bytes(m.base_color[3]),
        m.uniform_bytes().subrange(16, 20) == ne_bytes(m.width),
        m.uniform_bytes().subrange(20, 24) == ne_bytes(m.time),
{
    lemma_ne_bytes_injective(m.base_color[0], m.base_color[0]);
    lemma_ne_bytes_injective(m.base_color[1], m.base_color[1]);
    lemma_ne_bytes_injective(m.base_color[2], m.base_color[2]);
    lemma_ne_bytes_injective(m.base_color[3], m.base_color[3]);
    lemma_ne_bytes_injective(m.width, m.width);
    lemma_ne_bytes_injective(m.time, m.time);
    let u = m.uniform_bytes();
    assert(u.subrange(0, 4) =~= ne_bytes(m.base_color[0]));
    assert(u.subrange(4, 8) =~= ne_bytes(m.base_color[1]));
    assert(u.subrange(8, 12) =~= ne_bytes(m.base_color[2]));
    assert(u.subrange(12, 16) =~= ne_bytes(m.base_color[3]));
    assert(u.subrange(16, 20) =~= ne_bytes(m.width));
    assert(u.subrange(20, 24) =~= ne_bytes(m.time));
}

/// The uniform is exactly `LASER_UNIFORM_SIZE` bytes long, and it tells any
/// two materials apart: the shader reads back every field that was written.
pub proof fn lemma_laser_uniform_is_faithful(a: LaserMaterial, b: LaserMaterial)
    ensures
        a.uniform_bytes().len() == LASER_UNIFORM_SIZE,
        a.uniform_bytes() == b.uniform_bytes() ==> a == b,
{
    lemma_ne_bytes_injective(a.base_color[0], b.base_color[0]);
    lemma_ne_bytes_injective(a.base_color[1], b.base_color[1]);
    lemma_ne_bytes_injective(a.base_color[2], b.base_color[2]);
    lemma_ne_bytes_injective(a.base_color[3], b.base_color[3]);
    lemma_ne_bytes_injective(a.width, b.width);
    lemma_ne_bytes_injective(a.time, b.time);
    lemma_ne_bytes_injective(b.base_color[0], a.base_color[0]);
    lemma_ne_bytes_injective(b.base_color[1], a.base_color[1]);
    lemma_ne_bytes_injective(b.base_color[2], a.base_color[2]);
    lemma_ne_bytes_injective(b.base_color[3], a.base_color[3]);
    lemma_ne_bytes_injective(b.width, a.width);
    lemma_ne_bytes_injective(b.time, a.time);
    let ua = a.uniform_bytes();
    let ub = b.uniform_bytes();
    if ua == ub {
        assert(ua.subrange(0, 4) =~= ne_bytes(a.base_color[0]));
        assert(ub.subrange(0, 4) =~= ne_bytes(b.base_color[0]));
        assert(ua.subrange(4, 8) =~= ne_bytes(a.base_color[1]));
        assert(ub.subrange(4, 8) =~= ne_bytes(b.base_color[1]));
        assert(ua.subrange(8, 12) =~= ne_bytes(a.base_color[2]));
        assert(ub.subrange(8, 12) =~= ne_bytes(b.base_color[2]));
        assert(ua.subrange(12, 16) =~= ne_bytes(a.base_color[3]));
        assert(ub.subrange(12, 16) =~= ne_bytes(b.base_color[3]));
        assert(ua.subrange(16, 20) =~= ne_bytes(a.width));
        assert(ub.subrange(16, 20) =~= ne_bytes(b.width));
        assert(ua.subrange(20, 24) =~= ne_bytes(a.time));
        assert(ub.subrange(20, 24) =~= ne_bytes(b.time));
        assert(a.base_color@ =~= b.base_color@);
        assert(a.base_color == b.base_color);
    }
}

} // verus!
