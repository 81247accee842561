//! Harvard spectral classification of stars.

use vstd::prelude::*;
use crate::text::{decimal, push_decimal};

verus! {

/// Harvard spectral class letter.
#[derive(Clone, Copy, Debug, PartialEq, Eq, Structural, Hash)]
pub enum SpectralClass {
    O,
    B,
    A,
    F,
    G,
    K,
    M,
}

/// The letter of a spectral class.
pub open spec fn class_letter(c: SpectralClass) -> char {
    match c {
        SpectralClass::O => 'O',
        SpectralClass::B => 'B',
        SpectralClass::A => 'A',
        SpectralClass::F => 'F',
        SpectralClass::G => 'G',
        SpectralClass::K => 'K',
        SpectralClass::M => 'M',
    }
}

impl SpectralClass {
    /// The class letter, e.g. `'G'`.
    pub fn letter(&self) -> (r: char)
        ensures
            r == class_letter(*self),
    {
        match self {
            SpectralClass::O => 'O',
            SpectralClass::B => 'B',
            SpectralClass::A => 'A',
            SpectralClass::F => 'F',
            SpectralClass::G => 'G',
            SpectralClass::K => 'K',
            SpectralClass::M => 'M',
        }
    }

    /// The class letter as a string, e.g. `"G"`.
    pub fn to_string(&self) -> (r: String)
        ensures
            r@ == seq![class_letter(*self)],
    {
        let mut s = String::new();
        s.push(self.letter());
        s
    }
}

/// Spectral classification of a star: Harvard class, numeric subtype and
/// luminosity class (e.g. "V" for main sequence).
#[derive(Clone, Debug, PartialEq)]
pub struct SpectralType {
    pub class: SpectralClass,
    pub subtype: u8,
    pub luminosity_class: String,
}

/// The display form of a spectral type: class letter, subtype digits and
/// luminosity class, e.g. "G2V".
pub open spec fn spectral_type_text(t: SpectralType) -> Seq<char> {
    seq![class_letter(t.class)] + decimal(t.subtype as nat) + t.luminosity_class@
}

impl SpectralType {
    /// The display form, e.g. "G2V" or "K5III".
    pub fn to_string(&self) -> (r: String)
        ensures
            r@ == spectral_type_text(*self),
    {
        let mut s = String::new();
        s.push(self.class.letter());
        push_decimal(&mut s, self.subtype as u64);
        s.append(self.luminosity_class.as_str());
        assert(s@ =~= spectral_type_text(*self));
        s
    }
}

/// Harvard class plus integer subclass 0..=9 derived from effective
/// temperature.
#[derive(Clone, Copy, Debug, PartialEq, Eq, Structural)]
pub struct IndexedSpectralType {
    /// Primary Harvard class letter.
    pub class: SpectralClass,
    /// Subclass digit, 0 (hottest) to 9 (coolest) within the class.
    pub subtype: u8,
}

} // verus!
