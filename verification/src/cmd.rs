//! The options a map is generated from.

use vstd::prelude::*;
use vstd::string::StrSliceExecFns;

verus! {

/// Largest width or height of a map, in hexes.
pub const MAX_DIMENSION: u32 = 32768;

/// Default width of a map, in hexes.
pub const DEFAULT_WIDTH: u32 = 200;

/// Default height of a map, in hexes.
pub const DEFAULT_HEIGHT: u32 = 160;

/// How the hexes of a map are turned.
#[derive(Clone, Copy, Debug, PartialEq, Eq, Structural)]
pub enum Orientation {
    /// Pointy-topped hexes, laid out in rows.
    Pointy,
    /// Flat-topped hexes, laid out in columns.
    Flat,
}

/// Why options could not be made from what was given.
#[derive(Clone, Copy, Debug, PartialEq, Eq, Structural)]
pub enum OptionsError {
    /// The orientation is neither `flat` nor `pointy`.
    InvalidOrientation,
    /// A dimension is zero or larger than `MAX_DIMENSION`.
    InvalidDimensions,
}

/// Whether two strings hold the same characters.
pub fn same_text(a: &str, b: &str) -> (r: bool)
    ensures
        r == (a@ == b@),
{
    let n = a.unicode_len();
    if b.unicode_len() != n {
        return false;
    }
    let mut i: usize = 0;
    while i < n
        invariant
            n == a@.len(),
            n == b@.len(),
            i <= n,
            forall|k: int| 0 <= k < i ==> a@[k] == b@[k],
        decreases n - i,
    {
        if a.get_char(i) != b.get_char(i) {
            return false;
        }
        i += 1;
    }
    proof {
        assert(a@ =~= b@);
    }
    true
}

impl Orientation {
    /// The orientation that a name stands for.
    pub open spec fn spec_from_name(name: Seq<char>) -> Option<Orientation> {
        if name == "flat"@ {
            Some(Orientation::Flat)
        } else if name == "pointy"@ {
            Some(Orientation::Pointy)
        } else {
            None
        }
    }

    /// The orientation that a name stands for: `flat` or `pointy`. Any other
    /// name stands for none.
    pub fn from_name(name: &str) -> (r: Option<Orientation>)
        ensures
            r == Self::spec_from_name(name@),
    {
        if same_text(name, "flat") {
            Some(Orientation::Flat)
        } else if same_text(name, "pointy") {
            Some(Orientation::Pointy)
        } else {
            None
        }
    }
}

/// How offset coordinates relate to axial ones: which columns or rows are shoved.
#[derive(Clone, Copy, Debug, PartialEq, Eq, Structural)]
pub enum OffsetMode {
    /// Vertical layout, even columns shoved down.
    EvenColumns,
    /// Vertical layout, odd columns shoved down.
    OddColumns,
    /// Horizontal layout, even rows shoved right.
    EvenRows,
    /// Horizontal layout, odd rows shoved right.
    OddRows,
}

impl OffsetMode {
    /// Whether the mode shoves columns, which is the layout of flat-topped hexes.
    pub open spec fn spec_is_columns(self) -> bool {
        self == OffsetMode::EvenColumns || self == OffsetMode::OddColumns
    }

    /// Whether the mode shoves columns, which is the layout of flat-topped hexes.
    pub fn is_columns(&self) -> (r: bool)
        ensures
            r == self.spec_is_columns(),
    {
        match self {
            OffsetMode::EvenColumns => true,
            OffsetMode::OddColumns => true,
            OffsetMode::EvenRows => false,
            OffsetMode::OddRows => false,
        }
    }
}

/// What a map is generated from.
#[derive(Clone, Copy, Debug, PartialEq, Eq, Structural)]
pub struct GenerateOptions {
    pub seed: u64,
    pub width: u32,
    pub height: u32,
    pub orientation: Orientation,
}

impl Default for GenerateOptions {
    fn default() -> (r: Self)
        ensures
            r.seed == 0,
            r.width == DEFAULT_WIDTH,
            r.height == DEFAULT_HEIGHT,
            r.orientation == Orientation::Flat,
    {
        GenerateOptions {
            seed: 0,
            width: DEFAULT_WIDTH,
            height: DEFAULT_HEIGHT,
            orientation: Orientation::Flat,
        }
    }
}

impl GenerateOptions {
    /// The options describe a map that can be built: both dimensions are at
    /// least 1 and at most `MAX_DIMENSION`.
    pub open spec fn spec_valid(self) -> bool {
        1 <= self.width <= MAX_DIMENSION && 1 <= self.height <= MAX_DIMENSION
    }

    /// Whether both dimensions are at least 1 and at most `MAX_DIMENSION`.
    pub fn valid(&self) -> (r: bool)
        ensures
            r == self.spec_valid(),
    {
        1 <= self.width && self.width <= MAX_DIMENSION && 1 <= self.height && self.height
            <= MAX_DIMENSION
    }

    /// The options that the given values make, with the default for each
    /// value that is not given.
    pub open spec fn spec_with(
        seed: Option<u64>,
        width: Option<u32>,
        height: Option<u32>,
        orientation: Option<Orientation>,
    ) -> GenerateOptions {
        GenerateOptions {
            seed: match seed {
                Some(s) => s,
                None => 0,
            },
            width: match width {
                Some(w) => w,
                None => DEFAULT_WIDTH,
            },
            height: match height {
                Some(h) => h,
                None => DEFAULT_HEIGHT,
            },
            orientation: match orientation {
                Some(o) => o,
                None => Orientation::Flat,
            },
        }
    }

    /// Makes options from what was given on the command line, with the
    /// default for each value that is not given. Fails with
    /// `InvalidOrientation` exactly when an orientation is given that is
    /// neither `flat` nor `pointy`, and else with `InvalidDimensions` exactly
    /// when a dimension is zero or larger than `MAX_DIMENSION`.
    pub fn from_args(
        seed: Option<u64>,
        width: Option<u32>,
        height: Option<u32>,
        orientation: Option<&str>,
    ) -> (r: Result<GenerateOptions, OptionsError>)
        ensures
            match orientation {
                Some(name) => match Orientation::spec_from_name(name@) {
                    Some(o) => Self::spec_made(r, Self::spec_with(seed, width, height, Some(o))),
                    None => r is Err && r->Err_0 == OptionsError::InvalidOrientation,
                },
                None => Self::spec_made(r, Self::spec_with(seed, width, height, None)),
            },
    {
        let mut options = GenerateOptions::default();
        if let Some(s) = seed {
            options.seed = s;
        }
        if let Some(w) = width {
            options.width = w;
        }
        if let Some(h) = height {
            options.height = h;
        }
        if let Some(name) = orientation {
            match Orientation::from_name(name) {
                Some(o) => {
                    options.orientation = o;
                },
                None => {
                    return Err(OptionsError::InvalidOrientation);
                },
            }
        }
        if options.valid() {
            Ok(options)
        } else {
            Err(OptionsError::InvalidDimensions)
        }
    }

    /// Whether `r` is what `from_args` makes of the options `wanted`: the
    /// options themselves when they are valid, and `InvalidDimensions` when
    /// they are not.
    pub open spec fn spec_made(
        r: Result<GenerateOptions, OptionsError>,
        wanted: GenerateOptions,
    ) -> bool {
        if wanted.spec_valid() {
            r is Ok && r->Ok_0 == wanted
        } else {
            r is Err && r->Err_0 == OptionsError::InvalidDimensions
        }
    }

    /// The offset mode that goes with the orientation.
    pub open spec fn spec_offset_mode(self) -> OffsetMode {
        match self.orientation {
            Orientation::Flat => OffsetMode::OddColumns,
            Orientation::Pointy => OffsetMode::OddRows,
        }
    }

    /// The offset mode that goes with the orientation: odd columns for flat
    /// hexes, odd rows for pointy ones.
    pub fn offset_mode(&self) -> (r: OffsetMode)
        ensures
            r == self.spec_offset_mode(),
    {
        match self.orientation {
            Orientation::Flat => OffsetMode::OddColumns,
            Orientation::Pointy => OffsetMode::OddRows,
        }
    }
}

} // verus!
