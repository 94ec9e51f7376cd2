//! The record of one star, its decoding from a row of catalogue text, and
//! its colour.

use crate::color::{color_index_to_rgb, follows_formula, rgb_at, white, Rgb, FULL};
use crate::decimal::Decimal;
use crate::text::{
    decimal_of, i32_of, parse_decimal, parse_i32, parse_u32, trim_text, trimmed, u32_of,
};
use vstd::prelude::*;
use vstd::utf8::encode_utf8;

verus! {

/// The number of columns of a row of catalogue text, one for each field of a
/// `Star`, in the order of the fields.
pub const COLUMNS: usize = 37;

/// One star of the catalogue. A field that the catalogue may leave empty is
/// an `Option`.
#[derive(Clone, Debug, PartialEq, Eq)]
pub struct Star {
    /// The catalogue's own number; 0 is the Sun, the origin of the coordinates.
    pub id: u32,
    /// Number in the Hipparcos catalogue.
    pub hipparcos: Option<u32>,
    /// Number in the Henry Draper catalogue.
    pub henry_draper: Option<u32>,
    /// Number in the Harvard Revised catalogue.
    pub harvard_revised: Option<u32>,
    /// Number in the Gliese catalogue.
    pub gliese: Option<u32>,
    /// Bayer or Flamsteed designation.
    pub bayer_flamsteed: Option<String>,
    /// Common name.
    pub common_name: Option<String>,
    /// Right ascension, in degrees.
    pub ra: Decimal,
    /// Declination, in degrees.
    pub dec: Decimal,
    /// Distance from the Sun, in parsecs.
    pub distance: Decimal,
    /// Proper motion in right ascension, in milliarcseconds a year.
    pub pmra: Option<Decimal>,
    /// Proper motion in declination, in milliarcseconds a year.
    pub pmdec: Option<Decimal>,
    /// Radial velocity.
    pub radial_velocity: Option<Decimal>,
    /// Apparent visual magnitude.
    pub magnitude: Decimal,
    /// Absolute magnitude: the apparent one at 10 parsecs.
    pub abs_magnitude: Decimal,
    /// Spectral type.
    pub spectral_type: Option<String>,
    /// B-V colour index.
    pub color_index: Option<Decimal>,
    /// Cartesian x, in parsecs.
    pub x: Decimal,
    /// Cartesian y, in parsecs.
    pub y: Decimal,
    /// Cartesian z, in parsecs.
    pub z: Decimal,
    /// Velocity along x, in parsecs a year.
    pub vx: Decimal,
    /// Velocity along y, in parsecs a year.
    pub vy: Decimal,
    /// Velocity along z, in parsecs a year.
    pub vz: Decimal,
    /// Right ascension, in radians.
    pub rarad: Decimal,
    /// Declination, in radians.
    pub decrad: Decimal,
    /// Proper motion in right ascension, in radians a year.
    pub pmrarad: Option<Decimal>,
    /// Proper motion in declination, in radians a year.
    pub pmdecrad: Option<Decimal>,
    /// Bayer letter.
    pub bayer: Option<String>,
    /// Flamsteed number.
    pub flam: Option<u32>,
    /// Constellation.
    pub constellation: Option<String>,
    /// Number of this star among the companions of its system.
    pub companion_id: i32,
    /// Catalogue number of the primary star of its system.
    pub primary_star_id: i32,
    /// Catalogue name of its multiple system.
    pub multistar_catalog_id: Option<String>,
    /// Luminosity, as a multiple of the Sun's.
    pub lum: Decimal,
    /// Variable star designation.
    pub var: Option<String>,
    /// Least magnitude of a variable star.
    pub var_min: Option<Decimal>,
    /// Greatest magnitude of a variable star.
    pub var_max: Option<Decimal>,
}

/// What a `Star` holds, with its texts as sequences of characters.
pub struct StarView {
    pub id: u32,
    pub hipparcos: Option<u32>,
    pub henry_draper: Option<u32>,
    pub harvard_revised: Option<u32>,
    pub gliese: Option<u32>,
    pub bayer_flamsteed: Option<Seq<char>>,
    pub common_name: Option<Seq<char>>,
    pub ra: Decimal,
    pub dec: Decimal,
    pub distance: Decimal,
    pub pmra: Option<Decimal>,
    pub pmdec: Option<Decimal>,
    pub radial_velocity: Option<Decimal>,
    pub magnitude: Decimal,
    pub abs_magnitude: Decimal,
    pub spectral_type: Option<Seq<char>>,
    pub color_index: Option<Decimal>,
    pub x: Decimal,
    pub y: Decimal,
    pub z: Decimal,
    pub vx: Decimal,
    pub vy: Decimal,
    pub vz: Decimal,
    pub rarad: Decimal,
    pub decrad: Decimal,
    pub pmrarad: Option<Decimal>,
    pub pmdecrad: Option<Decimal>,
    pub bayer: Option<Seq<char>>,
    pub flam: Option<u32>,
    pub constellation: Option<Seq<char>>,
    pub companion_id: i32,
    pub primary_star_id: i32,
    pub multistar_catalog_id: Option<Seq<char>>,
    pub lum: Decimal,
    pub var: Option<Seq<char>>,
    pub var_min: Option<Decimal>,
    pub var_max: Option<Decimal>,
}

/// The characters of a text that may be absent.
pub open spec fn text_view(text: Option<String>) -> Option<Seq<char>> {
    match text {
        Some(s) => Some(s@),
        None => None,
    }
}

impl View for Star {
    type V = StarView;

    open spec fn view(&self) -> StarView {
        StarView {
            id: self.id,
            hipparcos: self.hipparcos,
            henry_draper: self.henry_draper,
            harvard_revised: self.harvard_revised,
            gliese: self.gliese,
            bayer_flamsteed: text_view(self.bayer_flamsteed),
            common_name: text_view(self.common_name),
            ra: self.ra,
            dec: self.dec,
            distance: self.distance,
            pmra: self.pmra,
            pmdec: self.pmdec,
            radial_velocity: self.radial_velocity,
            magnitude: self.magnitude,
            abs_magnitude: self.abs_magnitude,
            spectral_type: text_view(self.spectral_type),
            color_index: self.color_index,
            x: self.x,
            y: self.y,
            z: self.z,
            vx: self.vx,
            vy: self.vy,
            vz: self.vz,
            rarad: self.rarad,
            decrad: self.decrad,
            pmrarad: self.pmrarad,
            pmdecrad: self.pmdecrad,
            bayer: text_view(self.bayer),
            flam: self.flam,
            constellation: text_view(self.constellation),
            companion_id: self.companion_id,
            primary_star_id: self.primary_star_id,
            multistar_catalog_id: text_view(self.multistar_catalog_id),
            lum: self.lum,
            var: text_view(self.var),
            var_min: self.var_min,
            var_max: self.var_max,
        }
    }
}

/// What each of some stars holds.
pub open spec fn star_views(stars: Seq<Star>) -> Seq<StarView> {
    Seq::new(stars.len(), |i: int| stars[i]@)
}

/// The texts of the fields of a row.
pub open spec fn row_text(row: Seq<String>) -> Seq<Seq<char>> {
    Seq::new(row.len(), |i: int| row[i]@)
}

/// The bytes of a field in which a number stands: its text without the
/// white space at its two ends, in UTF-8.
pub open spec fn number_text(field: Seq<char>) -> Seq<u8> {
    encode_utf8(trimmed(field))
}

/// The text of a field that may be left empty: absent where it is empty.
pub open spec fn text_of(field: Seq<char>) -> Option<Seq<char>> {
    if field.len() == 0 {
        None
    } else {
        Some(field)
    }
}

impl StarView {
    /// Whether every field of `row` that a star cannot be without holds a
    /// number of its kind.
    pub open spec fn required_present(row: Seq<Seq<char>>) -> bool {
        &&& u32_of(number_text(row[0])) is Some
        &&& decimal_of(number_text(row[7])) is Some
        &&& decimal_of(number_text(row[8])) is Some
        &&& decimal_of(number_text(row[9])) is Some
        &&& decimal_of(number_text(row[13])) is Some
        &&& decimal_of(number_text(row[14])) is Some
        &&& decimal_of(number_text(row[17])) is Some
        &&& decimal_of(number_text(row[18])) is Some
        &&& decimal_of(number_text(row[19])) is Some
        &&& decimal_of(number_text(row[20])) is Some
        &&& decimal_of(number_text(row[21])) is Some
        &&& decimal_of(number_text(row[22])) is Some
        &&& decimal_of(number_text(row[23])) is Some
        &&& decimal_of(number_text(row[24])) is Some
        &&& i32_of(number_text(row[30])) is Some
        &&& i32_of(number_text(row[31])) is Some
        &&& decimal_of(number_text(row[33])) is Some
    }

    /// The star that a row of text writes: the fields are taken by
    /// position. A row of another length than `COLUMNS`, or with a required
    /// field that holds no number, writes none. An optional number that
    /// cannot be read is absent, as an empty one is.
    pub open spec fn of_row(row: Seq<Seq<char>>) -> Option<StarView> {
        if row.len() == COLUMNS && Self::required_present(row) {
            Some(
                StarView {
                    id: u32_of(number_text(row[0])).unwrap(),
                    hipparcos: u32_of(number_text(row[1])),
                    henry_draper: u32_of(number_text(row[2])),
                    harvard_revised: u32_of(number_text(row[3])),
                    gliese: u32_of(number_text(row[4])),
                    bayer_flamsteed: text_of(row[5]),
                    common_name: text_of(row[6]),
                    ra: decimal_of(number_text(row[7])).unwrap(),
                    dec: decimal_of(number_text(row[8])).unwrap(),
                    distance: decimal_of(number_text(row[9])).unwrap(),
                    pmra: decimal_of(number_text(row[10])),
                    pmdec: decimal_of(number_text(row[11])),
                    radial_velocity: decimal_of(number_text(row[12])),
                    magnitude: decimal_of(number_text(row[13])).unwrap(),
                    abs_magnitude: decimal_of(number_text(row[14])).unwrap(),
                    spectral_type: text_of(row[15]),
                    color_index: decimal_of(number_text(row[16])),
                    x: decimal_of(number_text(row[17])).unwrap(),
                    y: decimal_of(number_text(row[18])).unwrap(),
                    z: decimal_of(number_text(row[19])).unwrap(),
                    vx: decimal_of(number_text(row[20])).unwrap(),
                    vy: decimal_of(number_text(row[21])).unwrap(),
                    vz: decimal_of(number_text(row[22])).unwrap(),
                    rarad: decimal_of(number_text(row[23])).unwrap(),
                    decrad: decimal_of(number_text(row[24])).unwrap(),
                    pmrarad: decimal_of(number_text(row[25])),
                    pmdecrad: decimal_of(number_text(row[26])),
                    bayer: text_of(row[27]),
                    flam: u32_of(number_text(row[28])),
                    constellation: text_of(row[29]),
                    companion_id: i32_of(number_text(row[30])).unwrap(),
                    primary_star_id: i32_of(number_text(row[31])).unwrap(),
                    multistar_catalog_id: text_of(row[32]),
                    lum: decimal_of(number_text(row[33])).unwrap(),
                    var: text_of(row[34]),
                    var_min: decimal_of(number_text(row[35])),
                    var_max: decimal_of(number_text(row[36])),
                },
            )
        } else {
            None
        }
    }
}

/// The bytes of a field in which a number stands.
fn number_bytes(field: &String) -> (b: &[u8])
    ensures
        b@ == number_text(field@),
{
    trim_text(field.as_str()).as_bytes()
}

/// The unsigned number of a field.
fn u32_field(field: &String) -> (r: Option<u32>)
    ensures
        r == u32_of(number_text(field@)),
{
    parse_u32(number_bytes(field))
}

/// The signed number of a field.
fn i32_field(field: &String) -> (r: Option<i32>)
    ensures
        r == i32_of(number_text(field@)),
{
    parse_i32(number_bytes(field))
}

/// The decimal number of a field.
fn decimal_field(field: &String) -> (r: Option<Decimal>)
    ensures
        r == decimal_of(number_text(field@)),
{
    parse_decimal(number_bytes(field))
}

/// The text of a field that may be left empty.
fn text_field(field: &String) -> (r: Option<String>)
    ensures
        text_view(r) == text_of(field@),
{
    if field.as_str().is_empty() {
        None
    } else {
        Some(field.clone())
    }
}

impl Star {
    /// Decodes a row of catalogue text, field by field in the order of the
    /// columns. `None` where the row writes no star.
    pub fn from_row(row: &Vec<String>) -> (r: Option<Star>)
        ensures
            match r {
                Some(star) => StarView::of_row(row_text(row@)) == Some(star@),
                None => StarView::of_row(row_text(row@)) is None,
            },
    {
        if row.len() != COLUMNS {
            return None;
        }
        let ghost texts = row_text(row@);
        proof {
            assert forall|i: int| 0 <= i < 37 implies texts[i] == row@[i]@ by {}
        }
        let id = match u32_field(&row[0]) {
            Some(v) => v,
            None => {
                return None;
            },
        };
        let hipparcos = u32_field(&row[1]);
        let henry_draper = u32_field(&row[2]);
        let harvard_revised = u32_field(&row[3]);
        let gliese = u32_field(&row[4]);
        let bayer_flamsteed = text_field(&row[5]);
        let common_name = text_field(&row[6]);
        let ra = match decimal_field(&row[7]) {
            Some(v) => v,
            None => {
                return None;
            },
        };
        let dec = match decimal_field(&row[8]) {
            Some(v) => v,
            None => {
                return None;
            },
        };
        let distance = match decimal_field(&row[9]) {
            Some(v) => v,
            None => {
                return None;
            },
        };
        let pmra = decimal_field(&row[10]);
        let pmdec = decimal_field(&row[11]);
        let radial_velocity = decimal_field(&row[12]);
        let magnitude = match decimal_field(&row[13]) {
            Some(v) => v,
            None => {
                return None;
            },
        };
        let abs_magnitude = match decimal_field(&row[14]) {
            Some(v) => v,
            None => {
                return None;
            },
        };
        let spectral_type = text_field(&row[15]);
        let color_index = decimal_field(&row[16]);
        let x = match decimal_field(&row[17]) {
            Some(v) => v,
            None => {
                return None;
            },
        };
        let y = match decimal_field(&row[18]) {
            Some(v) => v,
            None => {
                return None;
            },
        };
        let z = match decimal_field(&row[19]) {
            Some(v) => v,
            None => {
                return None;
            },
        };
        let vx = match decimal_field(&row[20]) {
            Some(v) => v,
            None => {
                return None;
            },
        };
        let vy = match decimal_field(&row[21]) {
            Some(v) => v,
            None => {
                return None;
            },
        };
        let vz = match decimal_field(&row[22]) {
            Some(v) => v,
            None => {
                return None;
            },
        };
        let rarad = match decimal_field(&row[23]) {
            Some(v) => v,
            None => {
                return None;
            },
        };
        let decrad = match decimal_field(&row[24]) {
            Some(v) => v,
            None => {
                return None;
            },
        };
        let pmrarad = decimal_field(&row[25]);
        let pmdecrad = decimal_field(&row[26]);
        let bayer = text_field(&row[27]);
        let flam = u32_field(&row[28]);
        let constellation = text_field(&row[29]);
        let companion_id = match i32_field(&row[30]) {
            Some(v) => v,
            None => {
                return None;
            },
        };
        let primary_star_id = match i32_field(&row[31]) {
            Some(v) => v,
            None => {
                return None;
            },
        };
        let multistar_catalog_id = text_field(&row[32]);
        let lum = match decimal_field(&row[33]) {
            Some(v) => v,
            None => {
                return None;
            },
        };
        let var = text_field(&row[34]);
        let var_min = decimal_field(&row[35]);
        let var_max = decimal_field(&row[36]);
        Some(
            Star {
                id,
                hipparcos,
                henry_draper,
                harvard_revised,
                gliese,
                bayer_flamsteed,
                common_name,
                ra,
                dec,
                distance,
                pmra,
                pmdec,
                radial_velocity,
                magnitude,
                abs_magnitude,
                spectral_type,
                color_index,
                x,
                y,
                z,
                vx,
                vy,
                vz,
                rarad,
                decrad,
                pmrarad,
                pmdecrad,
                bayer,
                flam,
                constellation,
                companion_id,
                primary_star_id,
                multistar_catalog_id,
                lum,
                var,
                var_min,
                var_max,
            },
        )
    }

    /// The colour of the star from its colour index, which must be there.
    /// The index is held within the range of the transform and taken in
    /// whole billionths, rounded down; each channel lies within three parts
    /// of `FULL` of the transform at the index itself.
    pub fn bv2rgb(&self) -> (c: Rgb)
        requires
            self.color_index is Some,
        ensures
            c == rgb_at(self.color_index.unwrap().floor_at(9)),
            follows_formula(c, self.color_index.unwrap()),
    {
        match &self.color_index {
            Some(index) => color_index_to_rgb(index),
            None => white(),
        }
    }

    /// The colour of the star from its colour index; `None` where the
    /// catalogue gives the star no colour index.
    pub fn bv2rgb_opt(&self) -> (c: Option<Rgb>)
        ensures
            c == match self.color_index {
                Some(index) => Some(rgb_at(index.floor_at(9))),
                None => None,
            },
            c matches Some(found) ==> follows_formula(found, self.color_index.unwrap()),
    {
        if self.color_index.is_some() {
            Some(self.bv2rgb())
        } else {
            None
        }
    }

    /// The colour in which the star is shown: that of its colour index, and
    /// white where it has none.
    pub fn display_color(&self) -> (c: Rgb)
        ensures
            c == match self.color_index {
                Some(index) => rgb_at(index.floor_at(9)),
                None => Rgb { r: FULL, g: FULL, b: FULL },
            },
            self.color_index matches Some(index) ==> follows_formula(c, index),
    {
        match self.bv2rgb_opt() {
            Some(c) => c,
            None => white(),
        }
    }

    /// The number of this star among the companions of its system; `None`
    /// where the catalogue writes a negative number, which stands for none.
    pub fn companion(&self) -> (r: Option<u32>)
        ensures
            r == if self.companion_id < 0 {
                None
            } else {
                Some(self.companion_id as u32)
            },
    {
        if self.companion_id < 0 {
            None
        } else {
            Some(self.companion_id as u32)
        }
    }

    /// The catalogue number of the primary star of its system; `None` where
    /// the catalogue writes a negative number, which stands for none.
    pub fn primary_star(&self) -> (r: Option<u32>)
        ensures
            r == if self.primary_star_id < 0 {
                None
            } else {
                Some(self.primary_star_id as u32)
            },
    {
        if self.primary_star_id < 0 {
            None
        } else {
            Some(self.primary_star_id as u32)
        }
    }

    /// Whether this is the Sun, the origin of the coordinates.
    pub fn is_origin(&self) -> (r: bool)
        ensures
            r == (self.id == 0),
    {
        self.id == 0
    }
}

} // verus!
