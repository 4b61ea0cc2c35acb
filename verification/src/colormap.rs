//! The colormap: how a name is resolved to a palette, and the forms in
//! which a palette is handed out.

use crate::catalog::{Catalog, CatalogView, Sample};
use crate::channel::{scale, scaled, IntKind};
use crate::error::ColorcetError;
use crate::gradient::{css_hex, format_css_hex, sample_linear_ramp};
use crate::name::{base_name, is_reversed, lowercase, split_reversal};
use crate::single::{widen, widened};
use vstd::prelude::*;
use vstd::string::*;

verus! {

/// How many samples are taken from a ramp.
pub const RAMP_SAMPLES: usize = 256;

/// A palette in the order asked for.
pub open spec fn oriented(palette: Seq<Sample>, reverse: bool) -> Seq<Sample> {
    if reverse {
        palette.reverse()
    } else {
        palette
    }
}

/// A sample of singles as a sample of doubles.
pub open spec fn widened_sample(sample: [u32; 3]) -> Sample {
    [widened(sample[0]), widened(sample[1]), widened(sample[2])]
}

/// The samples of a ramp as a palette.
pub open spec fn widened_ramp(ramp: Seq<[u32; 3]>) -> Seq<Sample> {
    ramp.map_values(|sample: [u32; 3]| widened_sample(sample))
}

/// What a name that the catalog does not know leads to, given what became
/// of the ramp from black to the color that the name was read as: the
/// samples of the ramp, or the failure that carries the name as it was
/// asked for.
pub open spec fn ramp_outcome(requested: Seq<char>, reverse: bool, ramp: Option<Seq<[u32; 3]>>) -> Result<
    Seq<Sample>,
    Seq<char>,
> {
    match ramp {
        Some(samples) => Ok(oriented(widened_ramp(samples), reverse)),
        None => Err(requested),
    }
}

/// What a name leads to. `lowered` is the name in lower case; without its
/// reversal suffix it is looked up in the catalog, and only a name that the
/// catalog does not know is tried as a color. `ramp` is what became of the
/// ramp from black to that color; it has no say where the catalog knows the
/// name.
pub open spec fn resolution(
    catalog: CatalogView,
    requested: Seq<char>,
    lowered: Seq<char>,
    ramp: Option<Seq<[u32; 3]>>,
) -> Result<Seq<Sample>, Seq<char>> {
    match catalog.lookup(base_name(lowered)) {
        Some(palette) => Ok(oriented(palette, is_reversed(lowered))),
        None => ramp_outcome(requested, is_reversed(lowered), ramp),
    }
}

/// A palette with each channel scaled to the range of an integer type.
pub open spec fn scaled_palette(palette: Seq<Sample>, kind: IntKind) -> Seq<[i128; 3]> {
    palette.map_values(
        |sample: Sample|
            [
                scaled(sample[0], kind) as i128,
                scaled(sample[1], kind) as i128,
                scaled(sample[2], kind) as i128,
            ],
    )
}

/// A palette as CSS hex colors, each channel scaled to a byte.
pub open spec fn css_palette(palette: Seq<Sample>) -> Seq<Seq<char>> {
    palette.map_values(
        |sample: Sample|
            css_hex(
                scaled(sample[0], IntKind::U8) as u8,
                scaled(sample[1], IntKind::U8) as u8,
                scaled(sample[2], IntKind::U8) as u8,
            ),
    )
}

/// An ordered sequence of samples; each channel is the bit pattern of a
/// double. Nothing confines a channel to the unit interval: a colormap holds
/// the patterns that the catalog or the ramp gave it, and `get_rgb_int` and
/// `to_css_hex` take a channel outside the interval for the nearer end of
/// it.
#[derive(Debug)]
pub struct ColorMap {
    samples: Vec<Sample>,
}

impl View for ColorMap {
    type V = Seq<Sample>;

    closed spec fn view(&self) -> Seq<Sample> {
        self.samples@
    }
}

impl Clone for ColorMap {
    fn clone(&self) -> (copy: Self)
        ensures
            copy@ == self@,
    {
        ColorMap { samples: copy_oriented(&self.samples, false) }
    }
}

/// The mathematical content of what resolving a name returned.
pub open spec fn outcome(result: Result<ColorMap, ColorcetError>) -> Result<Seq<Sample>, Seq<char>> {
    match result {
        Ok(colormap) => Ok(colormap@),
        Err(error) => Err(error.name()),
    }
}

/// The content of a ramp that was or was not sampled.
pub open spec fn ramp_view(ramp: Option<Vec<[u32; 3]>>) -> Option<Seq<[u32; 3]>> {
    match ramp {
        Some(samples) => Some(samples@),
        None => None,
    }
}

/// Copies a palette, back to front if asked to.
fn copy_oriented(palette: &Vec<Sample>, reverse: bool) -> (copy: Vec<Sample>)
    ensures
        copy@ == oriented(palette@, reverse),
{
    let n = palette.len();
    let mut copy: Vec<Sample> = Vec::with_capacity(n);
    let mut i: usize = 0;
    while i < n
        invariant
            i <= n,
            n == palette.len(),
            copy@.len() == i,
            forall|j: int| 0 <= j < i ==> copy@[j] == oriented(palette@, reverse)[j],
        decreases n - i,
    {
        let sample = if reverse {
            palette[n - 1 - i]
        } else {
            palette[i]
        };
        copy.push(sample);
        i += 1;
    }
    copy
}

/// Converts the samples of a ramp to doubles, back to front if asked to.
fn widen_oriented(ramp: &Vec<[u32; 3]>, reverse: bool) -> (palette: Vec<Sample>)
    ensures
        palette@ == oriented(widened_ramp(ramp@), reverse),
{
    let n = ramp.len();
    let mut palette: Vec<Sample> = Vec::with_capacity(n);
    let mut i: usize = 0;
    while i < n
        invariant
            i <= n,
            n == ramp.len(),
            palette@.len() == i,
            forall|j: int| 0 <= j < i ==> palette@[j] == oriented(widened_ramp(ramp@), reverse)[j],
        decreases n - i,
    {
        let sample = if reverse {
            ramp[n - 1 - i]
        } else {
            ramp[i]
        };
        palette.push([widen(sample[0]), widen(sample[1]), widen(sample[2])]);
        i += 1;
    }
    palette
}

impl ColorMap {
    /// Finds a colormap by name. The name is put in lower case; a suffix
    /// `_r` asks for the reversed palette. What is left is looked up in the
    /// catalog as an alias; a name that the catalog does not know is read as
    /// a color, and stands for the ramp from black to it. Whether a name is
    /// a color, and the samples of its ramp, are colorgrad's to say:
    /// `from_ramp` says what is made of either answer.
    pub fn from_str(catalog: &Catalog, s: &str) -> (result: Result<ColorMap, ColorcetError>)
        ensures
            catalog@.wf(),
            match catalog@.lookup(base_name(lowercase(s@))) {
                Some(palette) => outcome(result) == Ok::<Seq<Sample>, Seq<char>>(
                    oriented(palette, is_reversed(lowercase(s@))),
                ),
                None => match result {
                    Ok(colormap) => colormap@.len() == RAMP_SAMPLES,
                    Err(error) => error.name() == s@,
                },
            },
            exists|ramp: Option<Seq<[u32; 3]>>|
                outcome(result) == #[trigger] resolution(catalog@, s@, lowercase(s@), ramp),
    {
        let lowered = s.to_lowercase();
        ColorMap::from_normalized(catalog, s, lowered.as_str())
    }

    /// Finds a colormap by a name that is in lower case already; `requested`
    /// is the name as it was asked for.
    pub fn from_normalized(catalog: &Catalog, requested: &str, lowered: &str) -> (result: Result<
        ColorMap,
        ColorcetError,
    >)
        ensures
            catalog@.wf(),
            match catalog@.lookup(base_name(lowered@)) {
                Some(palette) => outcome(result) == Ok::<Seq<Sample>, Seq<char>>(
                    oriented(palette, is_reversed(lowered@)),
                ),
                None => match result {
                    Ok(colormap) => colormap@.len() == RAMP_SAMPLES,
                    Err(error) => error.name() == requested@,
                },
            },
            exists|ramp: Option<Seq<[u32; 3]>>|
                outcome(result) == #[trigger] resolution(catalog@, requested@, lowered@, ramp),
    {
        let (base, reverse) = split_reversal(lowered);
        match catalog.lookup(base) {
            Some(palette) => {
                let made = Ok(ColorMap { samples: copy_oriented(palette, reverse) });
                assert(outcome(made) == resolution(catalog@, requested@, lowered@, None));
                made
            },
            None => {
                let ramp = sample_linear_ramp("#000000", base, RAMP_SAMPLES);
                let ghost sampled = ramp_view(ramp);
                let made = ColorMap::from_ramp(requested, reverse, ramp);
                assert(outcome(made) == resolution(catalog@, requested@, lowered@, sampled));
                made
            },
        }
    }

    /// Concludes the search for a name that the catalog does not know, from
    /// what became of the ramp: its samples make the colormap, and without
    /// them the name is reported as it was asked for.
    pub fn from_ramp(requested: &str, reverse: bool, ramp: Option<Vec<[u32; 3]>>) -> (result: Result<
        ColorMap,
        ColorcetError,
    >)
        ensures
            outcome(result) == ramp_outcome(requested@, reverse, ramp_view(ramp)),
    {
        match ramp {
            Some(samples) => Ok(ColorMap { samples: widen_oriented(&samples, reverse) }),
            None => Err(ColorcetError::ColormapNotFound(requested.to_owned())),
        }
    }

    /// The samples as they are kept: for each channel the bit pattern of a
    /// double.
    pub fn get_rgb_float(&self) -> (samples: Vec<Sample>)
        ensures
            samples@ == self@,
    {
        copy_oriented(&self.samples, false)
    }

    /// The samples scaled to the range of an integer type: zero becomes the
    /// least value of the type, one the greatest, and a value `v` between
    /// them the integer nearest to `v * (max - min) + min`, the one farther
    /// from zero where two are equally near. A channel must lie in the unit
    /// interval to be scaled as what it is: one outside it counts as the
    /// nearer end of the interval, and one that is no number as zero.
    pub fn get_rgb_int(&self, kind: IntKind) -> (samples: Vec<[i128; 3]>)
        ensures
            samples@ == scaled_palette(self@, kind),
    {
        let n = self.samples.len();
        let mut samples: Vec<[i128; 3]> = Vec::with_capacity(n);
        let mut i: usize = 0;
        while i < n
            invariant
                i <= n,
                n == self.samples.len(),
                samples@.len() == i,
                forall|j: int| 0 <= j < i ==> samples@[j] == scaled_palette(self@, kind)[j],
            decreases n - i,
        {
            let sample = self.samples[i];
            samples.push([scale(sample[0], kind), scale(sample[1], kind), scale(sample[2], kind)]);
            i += 1;
        }
        samples
    }

    /// The samples as CSS hex colors, `#rrggbb`: each channel is scaled to a
    /// byte as `get_rgb_int` does.
    pub fn to_css_hex(&self) -> (colors: Vec<String>)
        ensures
            colors@.len() == self@.len(),
            forall|i: int| 0 <= i < colors@.len() ==> (#[trigger] colors@[i])@ == css_palette(self@)[i],
    {
        let n = self.samples.len();
        let mut colors: Vec<String> = Vec::with_capacity(n);
        let mut i: usize = 0;
        while i < n
            invariant
                i <= n,
                n == self.samples.len(),
                colors@.len() == i,
                forall|j: int| 0 <= j < i ==> (#[trigger] colors@[j])@ == css_palette(self@)[j],
            decreases n - i,
        {
            let sample = self.samples[i];
            let red = scale(sample[0], IntKind::U8) as u8;
            let green = scale(sample[1], IntKind::U8) as u8;
            let blue = scale(sample[2], IntKind::U8) as u8;
            colors.push(format_css_hex(red, green, blue));
            i += 1;
        }
        colors
    }

    /// Every name of the catalog: the aliases, then the canonical keys.
    pub fn all_colormap_names(catalog: &Catalog) -> (names: Vec<String>)
        ensures
            catalog@.wf(),
            names@.len() == catalog@.names().len(),
            forall|i: int| 0 <= i < names@.len() ==> (#[trigger] names@[i])@ == catalog@.names()[i],
    {
        catalog.names()
    }
}

} // verus!
