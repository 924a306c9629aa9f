//! The palette: the ordered colors that are in effect.

use vstd::prelude::*;

use crate::color::Color;
use crate::message::{PaletteControlMessage, PaletteStateChange};

verus! {

/// The colors in effect, in the order that subscribers see them.
///
/// The palette is only ever replaced as a whole.
pub struct Palette(Vec<Color>);

impl View for Palette {
    type V = Seq<Color>;

    closed spec fn view(&self) -> Seq<Color> {
        self.0@
    }
}

impl Palette {
    /// A palette without colors.
    pub fn new() -> (palette: Palette)
        ensures
            palette@ == Seq::<Color>::empty(),
    {
        Palette(Vec::new())
    }

    /// The colors in effect.
    pub fn colors(&self) -> (colors: &[Color])
        ensures
            colors@ == self@,
    {
        self.0.as_slice()
    }

    /// Replaces the palette by the colors of `msg`, and reports them.
    pub fn control(&mut self, msg: PaletteControlMessage) -> (change: PaletteStateChange)
        ensures
            final(self)@ == msg.colors(),
            change.colors() == msg.colors(),
    {
        match msg {
            PaletteControlMessage::Replace(colors) => {
                self.0.clear();
                self.0.extend_from_slice(colors.as_slice());
                proof {
                    assert(self.0@ =~= colors@);
                }
                PaletteStateChange::Replaced(colors)
            },
        }
    }

    /// The palette as the change that would have set it.
    pub fn current_state(&self) -> (change: PaletteStateChange)
        ensures
            change.colors() == self@,
    {
        let colors = self.0.clone();
        proof {
            assert(colors@ =~= self.0@);
        }
        PaletteStateChange::Replaced(colors)
    }
}

} // verus!
