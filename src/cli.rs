use vstd::prelude::*;

use crate::text::{decimal_value, find_word, is_decimal, next_word, parse_decimal, same_text};

verus! {

/// A configuration parameter that an animation can sweep over.
#[derive(Debug, Clone, Copy, PartialEq, Eq, Structural)]
pub enum ArgumentList {
    Interval,
    Discretize,
    Direction,
    Splice,
    EdgeThreshold,
    ImageThreshold,
    ImageMask,
    Channel,
}

/// The path along which lines of pixels are traversed.
///
/// Only `Horizontal` (one line per row) and `Vertical` (one line per column)
/// have a traversal mapping; the others are accepted by the configuration and
/// rejected by a sort pass.
#[derive(Debug, Clone, Copy, PartialEq, Eq, Structural)]
pub enum WalkPath {
    Horizontal,
    Vertical,
    Concentric,
    Diagonal,
}

/// A single color channel of an RGB pixel.
#[derive(Debug, Clone, Copy, PartialEq, Eq, Structural)]
pub enum ColorChannel {
    Red,
    Green,
    Blue,
}

/// The score function that pixels are ordered by.
#[derive(Debug, Clone, Copy, PartialEq, Eq, Structural)]
pub enum SortingAlgorithm {
    Luma,
    Chroma,
    Saturation,
    Hue,
    Brightness,
    Intensity,
}

/// An animation over one parameter: from `start` to `stop` by `step`.
#[derive(Debug, Clone, Copy, PartialEq, Eq, Structural)]
pub struct AnimateParams {
    pub param: ArgumentList,
    pub start: u64,
    pub stop: u64,
    pub step: u64,
}

/// Number of coefficient units in a weight of one.
pub const COEFFICIENT_SCALE: i64 = 10000;

/// Red, green and blue weights applied before scoring, in fixed point:
/// a field holds the weight times `COEFFICIENT_SCALE` (so `2126` is `0.2126`).
#[derive(Debug, Clone, Copy, PartialEq, Eq, Structural)]
pub struct Coefficients {
    pub red: i32,
    pub green: i32,
    pub blue: i32,
}

impl Coefficients {
    /// Default luma coefficients: the perceptual weights 0.2126, 0.7152, 0.0722.
    pub fn luma() -> (r: Self)
        ensures
            r == (Coefficients { red: 2126, green: 7152, blue: 722 }),
    {
        Coefficients { red: 2126, green: 7152, blue: 722 }
    }

    /// Default hue coefficients: the sector offsets 0, 2 and 4 (times 60 degrees).
    pub fn hue() -> (r: Self)
        ensures
            r == (Coefficients { red: 0, green: 20000, blue: 40000 }),
    {
        Coefficients { red: 0, green: 20000, blue: 40000 }
    }

    /// Default saturation coefficients: unweighted.
    pub fn saturation() -> (r: Self)
        ensures
            r == Coefficients::zero(),
    {
        Coefficients { red: 0, green: 0, blue: 0 }
    }

    /// Default chroma coefficients: unweighted.
    pub fn chroma() -> (r: Self)
        ensures
            r == Coefficients::zero(),
    {
        Coefficients { red: 0, green: 0, blue: 0 }
    }

    /// Default brightness coefficients: unweighted.
    pub fn brightness() -> (r: Self)
        ensures
            r == Coefficients::zero(),
    {
        Coefficients { red: 0, green: 0, blue: 0 }
    }

    /// Default intensity coefficients: unweighted.
    pub fn intensity() -> (r: Self)
        ensures
            r == Coefficients::zero(),
    {
        Coefficients { red: 0, green: 0, blue: 0 }
    }

    pub open spec fn zero() -> Coefficients {
        Coefficients { red: 0, green: 0, blue: 0 }
    }

    /// The default coefficients of a score function.
    pub open spec fn default_for(by: SortingAlgorithm) -> Coefficients {
        match by {
            SortingAlgorithm::Luma => Coefficients { red: 2126, green: 7152, blue: 722 },
            SortingAlgorithm::Hue => Coefficients { red: 0, green: 20000, blue: 40000 },
            _ => Coefficients::zero(),
        }
    }

    /// The coefficients that a sort by `by` uses: those given, else the
    /// defaults of `by`.
    pub fn for_algorithm(given: Option<Coefficients>, by: SortingAlgorithm) -> (r: Self)
        ensures
            r == (match given {
                Some(c) => c,
                None => Coefficients::default_for(by),
            }),
    {
        match given {
            Some(c) => c,
            None => match by {
                SortingAlgorithm::Luma => Coefficients::luma(),
                SortingAlgorithm::Chroma => Coefficients::chroma(),
                SortingAlgorithm::Saturation => Coefficients::saturation(),
                SortingAlgorithm::Hue => Coefficients::hue(),
                SortingAlgorithm::Brightness => Coefficients::brightness(),
                SortingAlgorithm::Intensity => Coefficients::intensity(),
            },
        }
    }
}

impl Default for Coefficients {
    fn default() -> (r: Self)
        ensures
            r == Coefficients::zero(),
    {
        Coefficients { red: 0, green: 0, blue: 0 }
    }
}

/// Why argument text was refused.
#[derive(Debug, Clone, Copy, PartialEq, Eq, Structural)]
pub enum ArgumentError {
    /// Not a decimal number, or too large for its type.
    InvalidNumber,
    /// An interval of zero.
    ZeroInterval,
    /// Not the name of an animation parameter.
    UnknownParameter,
    MissingParameter,
    MissingStart,
    MissingStop,
    MissingStep,
}

/// The parameter with the given lower-case name.
pub open spec fn argument_named(s: Seq<char>) -> Option<ArgumentList> {
    if s == "interval"@ {
        Some(ArgumentList::Interval)
    } else if s == "discretize"@ {
        Some(ArgumentList::Discretize)
    } else if s == "direction"@ {
        Some(ArgumentList::Direction)
    } else if s == "splice"@ {
        Some(ArgumentList::Splice)
    } else if s == "edge_threshold"@ {
        Some(ArgumentList::EdgeThreshold)
    } else if s == "image_threshold"@ {
        Some(ArgumentList::ImageThreshold)
    } else if s == "image_mask"@ {
        Some(ArgumentList::ImageMask)
    } else if s == "channel"@ {
        Some(ArgumentList::Channel)
    } else {
        None
    }
}

/// What `str::to_lowercase` makes of a text.
pub uninterp spec fn lower_of(s: Seq<char>) -> Seq<char>;

/// Relies on `str::to_lowercase`: the lower-case form depends on the
/// characters alone.
#[verifier::external_body]
fn lowercase(s: &str) -> (r: String)
    ensures
        r@ == lower_of(s@),
{
    s.to_lowercase()
}

impl ArgumentList {
    /// The parameter whose name is exactly `name` (already in lower case).
    pub fn from_lowercase(name: &str) -> (r: Option<ArgumentList>)
        ensures
            r == argument_named(name@),
    {
        if same_text(name, "interval") {
            Some(ArgumentList::Interval)
        } else if same_text(name, "discretize") {
            Some(ArgumentList::Discretize)
        } else if same_text(name, "direction") {
            Some(ArgumentList::Direction)
        } else if same_text(name, "splice") {
            Some(ArgumentList::Splice)
        } else if same_text(name, "edge_threshold") {
            Some(ArgumentList::EdgeThreshold)
        } else if same_text(name, "image_threshold") {
            Some(ArgumentList::ImageThreshold)
        } else if same_text(name, "image_mask") {
            Some(ArgumentList::ImageMask)
        } else if same_text(name, "channel") {
            Some(ArgumentList::Channel)
        } else {
            None
        }
    }

    /// The parameter named `value`, in any letter case.
    pub fn from_name(value: &str) -> (r: Result<ArgumentList, ArgumentError>)
        ensures
            r == (match argument_named(lower_of(value@)) {
                Some(a) => Ok(a),
                None => Err(ArgumentError::UnknownParameter),
            }),
    {
        let lower = lowercase(value);
        match ArgumentList::from_lowercase(lower.as_str()) {
            Some(a) => Ok(a),
            None => Err(ArgumentError::UnknownParameter),
        }
    }
}

impl WalkPath {
    /// The name of the direction, in lower case.
    pub fn name(&self) -> (r: &'static str)
        ensures
            r@ == (match *self {
                WalkPath::Horizontal => "horizontal"@,
                WalkPath::Vertical => "vertical"@,
                WalkPath::Concentric => "concentric"@,
                WalkPath::Diagonal => "diagonal"@,
            }),
    {
        match self {
            WalkPath::Horizontal => "horizontal",
            WalkPath::Vertical => "vertical",
            WalkPath::Concentric => "concentric",
            WalkPath::Diagonal => "diagonal",
        }
    }
}

/// The outcome of reading an interval: a positive decimal number that fits
/// in `usize`.
pub open spec fn interval_of(s: Seq<char>) -> Result<usize, ArgumentError> {
    if !(is_decimal(s) && decimal_value(s) <= usize::MAX) {
        Err(ArgumentError::InvalidNumber)
    } else if decimal_value(s) == 0 {
        Err(ArgumentError::ZeroInterval)
    } else {
        Ok(decimal_value(s) as usize)
    }
}

/// Reads an interval, refusing zero.
pub fn no_negative_values(input: &str) -> (r: Result<usize, ArgumentError>)
    ensures
        r == interval_of(input@),
{
    match parse_decimal(input, usize::MAX as u64) {
        None => Err(ArgumentError::InvalidNumber),
        Some(0) => Err(ArgumentError::ZeroInterval),
        Some(v) => Ok(v as usize),
    }
}

/// The word of `s` that starts at the first non-space from `i` on.
pub open spec fn word_from(s: Seq<char>, i: int) -> Seq<char> {
    s.subrange(next_word(s, i).0, next_word(s, i).1)
}

/// The number in the word from `i` on: `missing` when there is no word left.
pub open spec fn number_from(s: Seq<char>, i: int, missing: ArgumentError) -> Result<
    u64,
    ArgumentError,
> {
    if next_word(s, i).0 == next_word(s, i).1 {
        Err(missing)
    } else if is_decimal(word_from(s, i)) && decimal_value(word_from(s, i)) <= u64::MAX {
        Ok(decimal_value(word_from(s, i)) as u64)
    } else {
        Err(ArgumentError::InvalidNumber)
    }
}

/// The outcome of reading `PARAM START STOP STEP`; words past the fourth are
/// ignored.
pub open spec fn animate_params_of(s: Seq<char>) -> Result<AnimateParams, ArgumentError> {
    let e1 = next_word(s, 0).1;
    let e2 = next_word(s, e1).1;
    let e3 = next_word(s, e2).1;
    if next_word(s, 0).0 == e1 {
        Err(ArgumentError::MissingParameter)
    } else if argument_named(lower_of(word_from(s, 0))) is None {
        Err(ArgumentError::UnknownParameter)
    } else if number_from(s, e1, ArgumentError::MissingStart) is Err {
        Err(number_from(s, e1, ArgumentError::MissingStart)->Err_0)
    } else if number_from(s, e2, ArgumentError::MissingStop) is Err {
        Err(number_from(s, e2, ArgumentError::MissingStop)->Err_0)
    } else if number_from(s, e3, ArgumentError::MissingStep) is Err {
        Err(number_from(s, e3, ArgumentError::MissingStep)->Err_0)
    } else {
        Ok(
            AnimateParams {
                param: argument_named(lower_of(word_from(s, 0)))->Some_0,
                start: number_from(s, e1, ArgumentError::MissingStart)->Ok_0,
                stop: number_from(s, e2, ArgumentError::MissingStop)->Ok_0,
                step: number_from(s, e3, ArgumentError::MissingStep)->Ok_0,
            },
        )
    }
}

/// Reads the number in the next word of `value` from char index `i` on, and
/// the index where that word ends.
fn next_number(value: &str, i: usize, missing: ArgumentError) -> (r: Result<(u64, usize), ArgumentError>)
    requires
        i <= value@.len(),
    ensures
        match r {
            Ok((v, e)) => number_from(value@, i as int, missing) == Ok::<u64, ArgumentError>(v)
                && e == next_word(value@, i as int).1,
            Err(err) => number_from(value@, i as int, missing) == Err::<u64, ArgumentError>(err),
        },
        r matches Ok((v, e)) ==> e <= value@.len(),
{
    let (a, b) = find_word(value, i);
    if a == b {
        return Err(missing);
    }
    let word = value.substring_char(a, b);
    match parse_decimal(word, u64::MAX) {
        Some(v) => Ok((v, b)),
        None => Err(ArgumentError::InvalidNumber),
    }
}

/// Reads animation parameters from `PARAM START STOP STEP`.
pub fn into_animate_params(value: &str) -> (r: Result<AnimateParams, ArgumentError>)
    ensures
        r == animate_params_of(value@),
{
    let (a, b) = find_word(value, 0);
    if a == b {
        return Err(ArgumentError::MissingParameter);
    }
    let param = match ArgumentList::from_name(value.substring_char(a, b)) {
        Ok(p) => p,
        Err(e) => return Err(e),
    };
    let (start, e1) = match next_number(value, b, ArgumentError::MissingStart) {
        Ok(x) => x,
        Err(e) => return Err(e),
    };
    let (stop, e2) = match next_number(value, e1, ArgumentError::MissingStop) {
        Ok(x) => x,
        Err(e) => return Err(e),
    };
    let (step, _e3) = match next_number(value, e2, ArgumentError::MissingStep) {
        Ok(x) => x,
        Err(e) => return Err(e),
    };
    Ok(AnimateParams { param, start, stop, step })
}

} // verus!
