//! What can be wrong with a request, and how it is said.

use crate::number;
use crate::number::IntError;
use vstd::prelude::*;
use vstd::string::*;

verus! {

/// Which weight a `weight:` token sets.
#[derive(Clone, Copy, Debug, PartialEq, Eq, Structural)]
pub enum WeightOf {
    Path,
    Style,
}

/// Why a request is refused. Every one of these is a bad request.
#[derive(Debug)]
pub enum ParamError {
    /// The latitude of `pair`, which reads `text`, is not a number.
    InvalidLatitude { pair: String, text: String },
    MissingLongitude,
    /// The longitude of `pair`, which reads `text`, is not a number.
    InvalidLongitude { pair: String, text: String },
    LatitudeOutOfRange { shown: String },
    LongitudeOutOfRange { shown: String },
    /// The weight, which reads `text`, is not a number.
    InvalidWeight { of: WeightOf, text: String },
    WeightOutOfRange { of: WeightOf, shown: String },
    /// A decoded coordinate, in hundred-thousandths of a degree, is none.
    EncodedOutOfRange { lat: i64, lon: i64 },
    MissingSize,
    InvalidWidth { cause: IntError },
    MissingHeight,
    InvalidHeight { cause: IntError },
    SizeOutOfRange,
    InvalidScale { cause: IntError },
    ScaleNotAllowed,
    OutputTooLarge { width: u32, height: u32 },
    InvalidFormat { text: String },
    InvalidZoom { cause: IntError },
    ZoomTooLarge,
    NothingToFit,
}

/// A [`ParamError`] with its texts as character sequences.
pub enum Fault {
    InvalidLatitude { pair: Seq<char>, text: Seq<char> },
    MissingLongitude,
    InvalidLongitude { pair: Seq<char>, text: Seq<char> },
    LatitudeOutOfRange { shown: Seq<char> },
    LongitudeOutOfRange { shown: Seq<char> },
    InvalidWeight { of: WeightOf, text: Seq<char> },
    WeightOutOfRange { of: WeightOf, shown: Seq<char> },
    EncodedOutOfRange { lat: i64, lon: i64 },
    MissingSize,
    InvalidWidth { cause: IntError },
    MissingHeight,
    InvalidHeight { cause: IntError },
    SizeOutOfRange,
    InvalidScale { cause: IntError },
    ScaleNotAllowed,
    OutputTooLarge { width: u32, height: u32 },
    InvalidFormat { text: Seq<char> },
    InvalidZoom { cause: IntError },
    ZoomTooLarge,
    NothingToFit,
}

impl View for ParamError {
    type V = Fault;

    open spec fn view(&self) -> Fault {
        match *self {
            ParamError::InvalidLatitude { pair, text } => Fault::InvalidLatitude {
                pair: pair@,
                text: text@,
            },
            ParamError::MissingLongitude => Fault::MissingLongitude,
            ParamError::InvalidLongitude { pair, text } => Fault::InvalidLongitude {
                pair: pair@,
                text: text@,
            },
            ParamError::LatitudeOutOfRange { shown } => Fault::LatitudeOutOfRange {
                shown: shown@,
            },
            ParamError::LongitudeOutOfRange { shown } => Fault::LongitudeOutOfRange {
                shown: shown@,
            },
            ParamError::InvalidWeight { of, text } => Fault::InvalidWeight { of, text: text@ },
            ParamError::WeightOutOfRange { of, shown } => Fault::WeightOutOfRange {
                of,
                shown: shown@,
            },
            ParamError::EncodedOutOfRange { lat, lon } => Fault::EncodedOutOfRange { lat, lon },
            ParamError::MissingSize => Fault::MissingSize,
            ParamError::InvalidWidth { cause } => Fault::InvalidWidth { cause },
            ParamError::MissingHeight => Fault::MissingHeight,
            ParamError::InvalidHeight { cause } => Fault::InvalidHeight { cause },
            ParamError::SizeOutOfRange => Fault::SizeOutOfRange,
            ParamError::InvalidScale { cause } => Fault::InvalidScale { cause },
            ParamError::ScaleNotAllowed => Fault::ScaleNotAllowed,
            ParamError::OutputTooLarge { width, height } => Fault::OutputTooLarge { width, height },
            ParamError::InvalidFormat { text } => Fault::InvalidFormat { text: text@ },
            ParamError::InvalidZoom { cause } => Fault::InvalidZoom { cause },
            ParamError::ZoomTooLarge => Fault::ZoomTooLarge,
            ParamError::NothingToFit => Fault::NothingToFit,
        }
    }
}

/// What the parsing of an integer says of its failure.
pub open spec fn int_error_text(e: IntError) -> Seq<char> {
    match e {
        IntError::Empty => "cannot parse integer from empty string"@,
        IntError::InvalidDigit => "invalid digit found in string"@,
        IntError::TooLarge => "number too large to fit in target type"@,
    }
}

/// What the parsing of a floating-point number says of its failure on `text`.
pub open spec fn float_error_text(text: Seq<char>) -> Seq<char> {
    if text.len() == 0 {
        "cannot parse float from empty string"@
    } else {
        "invalid float literal"@
    }
}

/// The name of a weight.
pub open spec fn weight_name(of: WeightOf) -> Seq<char> {
    match of {
        WeightOf::Path => "path weight"@,
        WeightOf::Style => "style weight"@,
    }
}

/// The message for a fault. `decoded` is the decoded coordinate pair as text;
/// only [`Fault::EncodedOutOfRange`] shows it.
pub open spec fn fault_text(f: Fault, decoded: Seq<char>) -> Seq<char> {
    match f {
        Fault::InvalidLatitude { pair, text } => "invalid latitude '"@ + pair + "': "@
            + float_error_text(text),
        Fault::MissingLongitude => "missing longitude"@,
        Fault::InvalidLongitude { pair, text } => "invalid longitude '"@ + pair + "': "@
            + float_error_text(text),
        Fault::LatitudeOutOfRange { shown } => "latitude out of range [-90, 90]: "@ + shown,
        Fault::LongitudeOutOfRange { shown } => "longitude out of range [-180, 180]: "@ + shown,
        Fault::InvalidWeight { of, text } => "invalid "@ + weight_name(of) + ": "@
            + float_error_text(text),
        Fault::WeightOutOfRange { of, shown } => weight_name(of)
            + " must be finite and between 0 and 1000: "@ + shown,
        Fault::EncodedOutOfRange { .. } => "encoded polyline has out-of-range coordinate: "@
            + decoded,
        Fault::MissingSize => "missing 'size' parameter"@,
        Fault::InvalidWidth { cause } => "invalid width: "@ + int_error_text(cause),
        Fault::MissingHeight => "missing height"@,
        Fault::InvalidHeight { cause } => "invalid height: "@ + int_error_text(cause),
        Fault::SizeOutOfRange => "size must be between 1x1 and 4096x4096"@,
        Fault::InvalidScale { cause } => "invalid scale: "@ + int_error_text(cause),
        Fault::ScaleNotAllowed => "scale must be 1, 2, or 4"@,
        Fault::OutputTooLarge { width, height } => "scaled output "@ + number::decimal(
            width as nat,
        ) + "x"@ + number::decimal(height as nat)
            + " exceeds 8192x8192; reduce size or scale"@,
        Fault::InvalidFormat { text } => "invalid format '"@ + text
            + "': expected 'png', 'svg', or 'jpeg'"@,
        Fault::InvalidZoom { cause } => "invalid zoom: "@ + int_error_text(cause),
        Fault::ZoomTooLarge => "zoom must be between 0 and 24"@,
        Fault::NothingToFit =>
            "provide either 'center'+'zoom', or 'visible'/'markers'/'path' points to auto-fit the viewport"@,
    }
}

/// Writes two texts one after the other.
fn two(a: &str, b: &str) -> (r: String)
    ensures
        r@ == a@ + b@,
{
    let mut r = a.to_owned();
    r.append(b);
    r
}

fn int_error_message(e: IntError) -> (r: &'static str)
    ensures
        r@ == int_error_text(e),
{
    match e {
        IntError::Empty => "cannot parse integer from empty string",
        IntError::InvalidDigit => "invalid digit found in string",
        IntError::TooLarge => "number too large to fit in target type",
    }
}

fn float_error_message(text: &str) -> (r: &'static str)
    ensures
        r@ == float_error_text(text@),
{
    if text.is_empty() {
        "cannot parse float from empty string"
    } else {
        "invalid float literal"
    }
}

fn weight_label(of: WeightOf) -> (r: &'static str)
    ensures
        r@ == weight_name(of),
{
    match of {
        WeightOf::Path => "path weight",
        WeightOf::Style => "style weight",
    }
}

impl ParamError {
    /// The HTTP status of the response: a bad request.
    pub fn status(&self) -> (r: u16)
        ensures
            r == 400,
    {
        400
    }

    /// The body of the response. `decoded` is the decoded coordinate pair as
    /// text; only [`ParamError::EncodedOutOfRange`] shows it.
    pub fn message(&self, decoded: &str) -> (r: String)
        ensures
            r@ == fault_text(self@, decoded@),
    {
        match self {
            ParamError::InvalidLatitude { pair, text } => {
                let mut r = two("invalid latitude '", pair.as_str());
                r.append("': ");
                r.append(float_error_message(text.as_str()));
                r
            },
            ParamError::MissingLongitude => "missing longitude".to_owned(),
            ParamError::InvalidLongitude { pair, text } => {
                let mut r = two("invalid longitude '", pair.as_str());
                r.append("': ");
                r.append(float_error_message(text.as_str()));
                r
            },
            ParamError::LatitudeOutOfRange { shown } => two(
                "latitude out of range [-90, 90]: ",
                shown.as_str(),
            ),
            ParamError::LongitudeOutOfRange { shown } => two(
                "longitude out of range [-180, 180]: ",
                shown.as_str(),
            ),
            ParamError::InvalidWeight { of, text } => {
                let mut r = two("invalid ", weight_label(*of));
                r.append(": ");
                r.append(float_error_message(text.as_str()));
                r
            },
            ParamError::WeightOutOfRange { of, shown } => {
                let mut r = two(weight_label(*of), " must be finite and between 0 and 1000: ");
                r.append(shown.as_str());
                r
            },
            ParamError::EncodedOutOfRange { .. } => two(
                "encoded polyline has out-of-range coordinate: ",
                decoded,
            ),
            ParamError::MissingSize => "missing 'size' parameter".to_owned(),
            ParamError::InvalidWidth { cause } => two("invalid width: ", int_error_message(*cause)),
            ParamError::MissingHeight => "missing height".to_owned(),
            ParamError::InvalidHeight { cause } => two(
                "invalid height: ",
                int_error_message(*cause),
            ),
            ParamError::SizeOutOfRange => "size must be between 1x1 and 4096x4096".to_owned(),
            ParamError::InvalidScale { cause } => two("invalid scale: ", int_error_message(*cause)),
            ParamError::ScaleNotAllowed => "scale must be 1, 2, or 4".to_owned(),
            ParamError::OutputTooLarge { width, height } => {
                let w = number::to_decimal(*width as u64);
                let h = number::to_decimal(*height as u64);
                let mut r = two("scaled output ", w.as_str());
                r.append("x");
                r.append(h.as_str());
                r.append(" exceeds 8192x8192; reduce size or scale");
                r
            },
            ParamError::InvalidFormat { text } => {
                let mut r = two("invalid format '", text.as_str());
                r.append("': expected 'png', 'svg', or 'jpeg'");
                r
            },
            ParamError::InvalidZoom { cause } => two("invalid zoom: ", int_error_message(*cause)),
            ParamError::ZoomTooLarge => "zoom must be between 0 and 24".to_owned(),
            ParamError::NothingToFit =>
                "provide either 'center'+'zoom', or 'visible'/'markers'/'path' points to auto-fit the viewport".to_owned(),
        }
    }
}

/// A message says what is wrong and shows the value at fault.
pub proof fn message_shows_the_value(f: Fault, decoded: Seq<char>)
    ensures
        match f {
            Fault::InvalidLatitude { pair, text } => fault_text(f, decoded)
                == "invalid latitude '"@ + pair + "': "@ + if text.len() == 0 {
                "cannot parse float from empty string"@
            } else {
                "invalid float literal"@
            },
            Fault::InvalidLongitude { pair, text } => fault_text(f, decoded)
                == "invalid longitude '"@ + pair + "': "@ + if text.len() == 0 {
                "cannot parse float from empty string"@
            } else {
                "invalid float literal"@
            },
            Fault::LatitudeOutOfRange { shown } => fault_text(f, decoded)
                == "latitude out of range [-90, 90]: "@ + shown,
            Fault::LongitudeOutOfRange { shown } => fault_text(f, decoded)
                == "longitude out of range [-180, 180]: "@ + shown,
            Fault::InvalidWeight { of, text } => fault_text(f, decoded) == "invalid "@ + (match of {
                WeightOf::Path => "path weight"@,
                WeightOf::Style => "style weight"@,
            }) + ": "@ + if text.len() == 0 {
                "cannot parse float from empty string"@
            } else {
                "invalid float literal"@
            },
            Fault::WeightOutOfRange { of, shown } => fault_text(f, decoded) == (match of {
                WeightOf::Path => "path weight"@,
                WeightOf::Style => "style weight"@,
            }) + " must be finite and between 0 and 1000: "@ + shown,
            Fault::EncodedOutOfRange { .. } => fault_text(f, decoded)
                == "encoded polyline has out-of-range coordinate: "@ + decoded,
            Fault::OutputTooLarge { width, height } => fault_text(f, decoded) == "scaled output "@
                + number::decimal(width as nat) + "x"@ + number::decimal(height as nat)
                + " exceeds 8192x8192; reduce size or scale"@,
            Fault::InvalidFormat { text } => fault_text(f, decoded) == "invalid format '"@ + text
                + "': expected 'png', 'svg', or 'jpeg'"@,
            Fault::InvalidWidth { cause } => fault_text(f, decoded) == "invalid width: "@
                + int_error_text(cause),
            Fault::InvalidHeight { cause } => fault_text(f, decoded) == "invalid height: "@
                + int_error_text(cause),
            Fault::InvalidScale { cause } => fault_text(f, decoded) == "invalid scale: "@
                + int_error_text(cause),
            Fault::InvalidZoom { cause } => fault_text(f, decoded) == "invalid zoom: "@
                + int_error_text(cause),
            Fault::MissingLongitude => fault_text(f, decoded) == "missing longitude"@,
            Fault::MissingSize => fault_text(f, decoded) == "missing 'size' parameter"@,
            Fault::MissingHeight => fault_text(f, decoded) == "missing height"@,
            Fault::SizeOutOfRange => fault_text(f, decoded)
                == "size must be between 1x1 and 4096x4096"@,
            Fault::ScaleNotAllowed => fault_text(f, decoded) == "scale must be 1, 2, or 4"@,
            Fault::ZoomTooLarge => fault_text(f, decoded) == "zoom must be between 0 and 24"@,
            Fault::NothingToFit => fault_text(f, decoded)
                == "provide either 'center'+'zoom', or 'visible'/'markers'/'path' points to auto-fit the viewport"@,
        },
{
}

/// The three ways in which a text is no integer are told apart.
pub proof fn integer_faults_are_told_apart(e: IntError)
    ensures
        int_error_text(e) == (match e {
            IntError::Empty => "cannot parse integer from empty string"@,
            IntError::InvalidDigit => "invalid digit found in string"@,
            IntError::TooLarge => "number too large to fit in target type"@,
        }),
{
}

} // verus!
