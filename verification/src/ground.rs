//! The ground: a flat band of snow glyphs at the base of the screen,
//! `width * height` cells. Growing appends fresh random glyphs, shrinking
//! truncates from the end; the kept prefix is never touched.

use vstd::prelude::*;

verus! {

use crate::is_snow_glyph;
use crate::rng::random_snowflake;

pub struct Ground {
    width: u16,
    height: u16,
    content: Vec<char>,
}

impl View for Ground {
    type V = Seq<char>;

    closed spec fn view(&self) -> Seq<char> {
        self.content@
    }
}

impl Ground {
    pub closed spec fn spec_width(&self) -> u16 {
        self.width
    }

    pub closed spec fn spec_height(&self) -> u16 {
        self.height
    }

    /// The band always holds exactly `width * height` glyphs, each one of
    /// the snow alphabet.
    pub open spec fn wf(&self) -> bool {
        &&& self@.len() == self.spec_width() as int * self.spec_height() as int
        &&& forall|i: int| 0 <= i < self@.len() ==> is_snow_glyph(#[trigger] self@[i])
    }

    pub fn new(width: u16, height: u16) -> (g: Ground)
        ensures
            g.wf(),
            g.spec_width() == width,
            g.spec_height() == height,
    {
        let mut g = Ground { width, height, content: Vec::new() };
        g.update_content();
        g
    }

    /// Changes the band's dimensions and brings the glyph buffer to the new
    /// size: the surviving prefix is kept as it was, growth is filled with
    /// fresh random glyphs, shrinking truncates from the end.
    pub fn update_dimensions(&mut self, width: u16, height: u16)
        requires
            old(self).wf(),
        ensures
            final(self).wf(),
            final(self).spec_width() == width,
            final(self).spec_height() == height,
            ({
                let n = width as int * height as int;
                if n <= old(self)@.len() {
                    final(self)@ == old(self)@.take(n)
                } else {
                    final(self)@.take(old(self)@.len() as int) == old(self)@
                }
            }),
    {
        self.width = width;
        self.height = height;
        self.update_content();
    }

    fn update_content(&mut self)
        requires
            forall|i: int| 0 <= i < old(self)@.len() ==> is_snow_glyph(#[trigger] old(self)@[i]),
        ensures
            final(self).wf(),
            final(self).spec_width() == old(self).spec_width(),
            final(self).spec_height() == old(self).spec_height(),
            ({
                let n = final(self).spec_width() as int * final(self).spec_height() as int;
                if n <= old(self)@.len() {
                    final(self)@ == old(self)@.take(n)
                } else {
                    final(self)@.take(old(self)@.len() as int) == old(self)@
                }
            }),
    {
        proof {
            let w = self.spec_width() as int;
            let h = self.spec_height() as int;
            assert(w * h <= 0xFFFF * 0xFFFF) by (nonlinear_arith)
                requires
                    0 <= w <= 0xFFFF,
                    0 <= h <= 0xFFFF,
            ;
        }
        let flake_count: usize = self.width as usize * self.height as usize;
        let ghost orig = self.content@;
        proof {
            assert forall|i: int| 0 <= i < orig.len() implies is_snow_glyph(orig[i]) by {
                assert(is_snow_glyph(old(self)@[i]));
            }
        }

        if self.content.len() > flake_count {
            self.content.truncate(flake_count);
            proof {
                assert forall|i: int| 0 <= i < self.content@.len() implies is_snow_glyph(
                    self.content@[i],
                ) by {
                    assert(self.content@[i] == orig[i]);
                }
            }
        } else {
            while self.content.len() < flake_count
                invariant
                    orig.len() <= self.content@.len() <= flake_count,
                    self.content@.take(orig.len() as int) == orig,
                    forall|i: int|
                        0 <= i < self.content@.len() ==> is_snow_glyph(#[trigger] self.content@[i]),
                    self.width == old(self).spec_width(),
                    self.height == old(self).spec_height(),
                    forall|i: int| 0 <= i < orig.len() ==> is_snow_glyph(#[trigger] orig[i]),
                    flake_count == self.width as usize * self.height as usize,
                decreases flake_count - self.content@.len(),
            {
                self.content.push(random_snowflake());
                assert(self.content@.take(orig.len() as int) == orig);
            }
        }
    }

    pub fn width(&self) -> (w: u16)
        ensures
            w == self.spec_width(),
    {
        self.width
    }

    pub fn height(&self) -> (h: u16)
        ensures
            h == self.spec_height(),
    {
        self.height
    }

    pub fn content(&self) -> (c: &Vec<char>)
        ensures
            c@ == self@,
    {
        &self.content
    }
}

} // verus!
