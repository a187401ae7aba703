use vstd::prelude::*;
use crate::bmp::{Ink, Pixel, bmp_height, bmp_offset, bmp_width, decoded, has_signature, known_depth, bmp_depth, parse_sprite_bmp};

verus! {

/// Width and height of a block sprite, in pixels.
pub const SPRITE_SIZE: usize = 12;

/// The sprite that a file's bytes give, if it is a block-sized image (see
/// `parse_sprite_bmp`).
pub open spec fn sprite_of(data: Option<Seq<u8>>) -> Option<Seq<Pixel>> {
    match data {
        Some(d) => if has_signature(d) && bmp_width(d) == SPRITE_SIZE && bmp_height(d) == SPRITE_SIZE
            && bmp_offset(d) < d.len() && known_depth(bmp_depth(d)) {
            Some(decoded(d, Ink::Dark))
        } else {
            None
        },
        None => None,
    }
}

pub open spec fn pixels_of(s: Option<Vec<Pixel>>) -> Option<Seq<Pixel>> {
    match s {
        Some(v) => Some(v@),
        None => None,
    }
}

pub open spec fn bytes_of(d: Option<Vec<u8>>) -> Option<Seq<u8>> {
    match d {
        Some(v) => Some(v@),
        None => None,
    }
}

/// The block pictures of the seven pieces, by shape-table position (I, O,
/// S, Z, T, L, J); a piece without one is drawn plain.
pub struct BlockSprites {
    sprites: Vec<Option<Vec<Pixel>>>,
    sprite_width: usize,
    sprite_height: usize,
}

impl BlockSprites {
    pub closed spec fn sprite_view(&self) -> Seq<Option<Seq<Pixel>>> {
        self.sprites@.map_values(|s: Option<Vec<Pixel>>| pixels_of(s))
    }

    pub closed spec fn size(&self) -> (usize, usize) {
        (self.sprite_width, self.sprite_height)
    }

    /// Width and height of every sprite.
    pub fn sprite_size(&self) -> (r: (usize, usize))
        ensures
            r == self.size(),
    {
        (self.sprite_width, self.sprite_height)
    }

    /// The sprites of the seven files (a missing file is `None`).
    pub fn from_files(files: &Vec<Option<Vec<u8>>>) -> (b: Self)
        requires
            files@.len() == 7,
        ensures
            b.sprite_view().len() == 7,
            forall|i: int| 0 <= i < 7 ==> #[trigger] b.sprite_view()[i] == sprite_of(bytes_of(files@[i])),
            b.size() == (SPRITE_SIZE, SPRITE_SIZE),
    {
        let mut sprites: Vec<Option<Vec<Pixel>>> = Vec::new();
        let mut i: usize = 0;
        while i < 7
            invariant
                files@.len() == 7,
                i <= 7,
                sprites@.len() == i,
                forall|k: int| 0 <= k < i ==> #[trigger] pixels_of(sprites@[k]) == sprite_of(bytes_of(files@[k])),
            decreases 7 - i,
        {
            let s = match &files[i] {
                Some(d) => parse_sprite_bmp(d.as_slice(), SPRITE_SIZE, SPRITE_SIZE),
                None => None,
            };
            sprites.push(s);
            i = i + 1;
        }
        let b = BlockSprites { sprites, sprite_width: SPRITE_SIZE, sprite_height: SPRITE_SIZE };
        proof {
            assert forall|k: int| 0 <= k < 7 implies #[trigger] b.sprite_view()[k] == sprite_of(bytes_of(files@[k])) by {
                assert(b.sprite_view()[k] == pixels_of(b.sprites@[k]));
            }
        }
        b
    }

    /// The sprite of the piece at shape-table position `piece_type`.
    pub fn get_sprite(&self, piece_type: usize) -> (s: Option<&Vec<Pixel>>)
        ensures
            match s {
                Some(v) => piece_type < self.sprite_view().len() && self.sprite_view()[piece_type as int]
                    == Some(v@),
                None => piece_type >= self.sprite_view().len() || self.sprite_view()[piece_type as int] is None,
            },
    {
        if piece_type < self.sprites.len() {
            match &self.sprites[piece_type] {
                Some(v) => Some(v),
                None => None,
            }
        } else {
            None
        }
    }

    /// Some piece has a sprite.
    pub fn has_sprites(&self) -> (b: bool)
        ensures
            b == exists|i: int| 0 <= i < self.sprite_view().len() && (#[trigger] self.sprite_view()[i]) is Some,
    {
        let mut i: usize = 0;
        while i < self.sprites.len()
            invariant
                i <= self.sprites@.len(),
                forall|k: int| 0 <= k < i ==> (#[trigger] self.sprite_view()[k]) is None,
            decreases self.sprites@.len() - i,
        {
            if self.sprites[i].is_some() {
                proof {
                    assert(self.sprite_view()[i as int] is Some);
                }
                return true;
            }
            proof {
                assert(self.sprite_view()[i as int] is None);
            }
            i = i + 1;
        }
        false
    }
}

} // verus!
