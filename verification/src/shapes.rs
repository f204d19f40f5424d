//! The scanner that turns command-line words into curves.
//!
//! Two directives are known, `--spiro` and `--rspiro`; each takes the three
//! words after it as big radius, little radius and point distance. Any other
//! word is noted and passed over.

use crate::sim_interface::Token;
use vstd::prelude::*;
use vstd::string::StringExecFns;

verus! {

/// A spirograph curve. Each parameter is the bit pattern of a
/// single-precision number.
#[derive(Clone, Copy, Debug, PartialEq, Eq, Structural)]
pub enum Shape {
    Forward { big_radius: u32, little_radius: u32, point_distance: u32 },
    Reversed { big_radius: u32, little_radius: u32, point_distance: u32 },
}

/// The two directives.
#[derive(Clone, Copy, Debug, PartialEq, Eq, Structural)]
pub enum Directive {
    Spiro,
    Rspiro,
}

/// Which of a directive's three arguments.
#[derive(Clone, Copy, Debug, PartialEq, Eq, Structural)]
pub enum Argument {
    First,
    Second,
    Third,
}

/// Why no curves could be read.
#[derive(Clone, Copy, Debug, PartialEq, Eq, Structural)]
pub enum ShapeError {
    /// Fewer than three words follow the directive.
    Arity(Directive),
    /// The named argument of the directive is not a number.
    Parse(Directive, Argument),
    /// The words hold no directive at all.
    NoShapes,
}

/// What a scan found: the positions of the words it did not know, in order,
/// and the curves or the first error.
#[derive(Debug, PartialEq, Eq)]
pub struct ShapeScan {
    pub unknown: Vec<usize>,
    pub result: Result<Vec<Shape>, ShapeError>,
}

/// The mathematical content of a [`ShapeScan`].
pub struct ScanModel {
    pub unknown: Seq<usize>,
    pub result: Result<Seq<Shape>, ShapeError>,
}

impl View for ShapeScan {
    type V = ScanModel;

    open spec fn view(&self) -> ScanModel {
        ScanModel {
            unknown: self.unknown@,
            result: match self.result {
                Ok(shapes) => Ok(shapes@),
                Err(e) => Err(e),
            },
        }
    }
}

/// The directive that a word spells, if any.
pub open spec fn directive_of(text: Seq<char>) -> Option<Directive> {
    if text == "--spiro"@ {
        Some(Directive::Spiro)
    } else if text == "--rspiro"@ {
        Some(Directive::Rspiro)
    } else {
        None
    }
}

/// The curve that directive `d` makes of three numbers.
pub open spec fn shape_of(d: Directive, big_radius: u32, little_radius: u32, point_distance: u32)
    -> Shape {
    match d {
        Directive::Spiro => Shape::Forward { big_radius, little_radius, point_distance },
        Directive::Rspiro => Shape::Reversed { big_radius, little_radius, point_distance },
    }
}

/// Reads the three arguments of directive `d`, the first of which stands at
/// `index`. The leftmost fault is the one reported.
pub open spec fn read_shape(tokens: Seq<Token>, index: int, d: Directive) -> Result<
    Shape,
    ShapeError,
> {
    if index + 3 > tokens.len() {
        Err(ShapeError::Arity(d))
    } else if tokens[index].number is None {
        Err(ShapeError::Parse(d, Argument::First))
    } else if tokens[index + 1].number is None {
        Err(ShapeError::Parse(d, Argument::Second))
    } else if tokens[index + 2].number is None {
        Err(ShapeError::Parse(d, Argument::Third))
    } else {
        Ok(
            shape_of(
                d,
                tokens[index].number->0,
                tokens[index + 1].number->0,
                tokens[index + 2].number->0,
            ),
        )
    }
}

/// The scan of `tokens` from position `i` on, given the curves and the
/// unknown words found before `i`.
pub open spec fn scan_from(tokens: Seq<Token>, i: int, shapes: Seq<Shape>, unknown: Seq<usize>)
    -> ScanModel
    decreases tokens.len() - i,
{
    if i < 0 || i >= tokens.len() {
        ScanModel {
            unknown,
            result: if shapes.len() == 0 {
                Err(ShapeError::NoShapes)
            } else {
                Ok(shapes)
            },
        }
    } else {
        match directive_of(tokens[i].text@) {
            Some(d) => match read_shape(tokens, i + 1, d) {
                Ok(shape) => scan_from(tokens, i + 4, shapes.push(shape), unknown),
                Err(e) => ScanModel { unknown, result: Err(e) },
            },
            None => scan_from(tokens, i + 1, shapes, unknown.push(i as usize)),
        }
    }
}

/// The scan of all of `tokens`.
pub open spec fn scan(tokens: Seq<Token>) -> ScanModel {
    scan_from(tokens, 0, Seq::empty(), Seq::empty())
}

/// Every position in `unknown` holds a word of `tokens` that is no
/// directive.
pub open spec fn all_unknown(tokens: Seq<Token>, unknown: Seq<usize>) -> bool {
    forall|k: int|
        0 <= k < unknown.len() ==> (#[trigger] unknown[k]) < tokens.len() && directive_of(
            tokens[unknown[k] as int].text@,
        ) is None
}

/// Whatever a scan has gathered it keeps: where it succeeds from position
/// `i`, the curves begin with those found before `i` and there is at least
/// one; and it notes only words that are no directive.
pub proof fn lemma_scan_from_keeps(
    tokens: Seq<Token>,
    i: int,
    shapes: Seq<Shape>,
    unknown: Seq<usize>,
)
    requires
        0 <= i,
        tokens.len() <= usize::MAX,
        all_unknown(tokens, unknown),
    ensures
        all_unknown(tokens, scan_from(tokens, i, shapes, unknown).unknown),
        match scan_from(tokens, i, shapes, unknown).result {
            Ok(found) => found.len() > 0 && shapes.is_prefix_of(found),
            Err(_) => true,
        },
    decreases tokens.len() - i,
{
    if i < tokens.len() {
        match directive_of(tokens[i].text@) {
            Some(d) => match read_shape(tokens, i + 1, d) {
                Ok(shape) => {
                    lemma_scan_from_keeps(tokens, i + 4, shapes.push(shape), unknown);
                    match scan_from(tokens, i, shapes, unknown).result {
                        Ok(found) => {
                            assert(shapes.push(shape).is_prefix_of(found));
                            assert(shapes =~= shapes.push(shape).subrange(0, shapes.len() as int));
                            assert(shapes.is_prefix_of(found));
                        },
                        Err(_) => {},
                    }
                },
                Err(_) => {},
            },
            None => {
                lemma_scan_from_keeps(tokens, i + 1, shapes, unknown.push(i as usize));
            },
        }
    } else {
        assert(shapes.is_prefix_of(shapes));
    }
}

/// A scan that succeeds yields at least one curve, and the words it notes as
/// unknown are words of the command line that spell no directive.
pub proof fn lemma_scan_sound(tokens: Seq<Token>)
    requires
        tokens.len() <= usize::MAX,
    ensures
        all_unknown(tokens, scan(tokens).unknown),
        match scan(tokens).result {
            Ok(found) => found.len() > 0,
            Err(_) => true,
        },
{
    lemma_scan_from_keeps(tokens, 0, Seq::empty(), Seq::empty());
}

/// Tells which directive a word spells.
pub fn directive(text: &String) -> (d: Option<Directive>)
    ensures
        d == directive_of(text@),
{
    let spiro: String = String::from_str("--spiro");
    let rspiro: String = String::from_str("--rspiro");
    if *text == spiro {
        Some(Directive::Spiro)
    } else if *text == rspiro {
        Some(Directive::Rspiro)
    } else {
        None
    }
}

/// Reads the three arguments of directive `d` from `command_line[index..]`.
fn parse_arguments(index: usize, command_line: &Vec<Token>, d: Directive) -> (shape: Result<
    Shape,
    ShapeError,
>)
    ensures
        shape == read_shape(command_line@, index as int, d),
{
    let n: usize = command_line.len();
    if index > n || n - index < 3 {
        return Err(ShapeError::Arity(d));
    }
    let big_radius: u32 = match command_line[index].number {
        Some(bits) => bits,
        None => { return Err(ShapeError::Parse(d, Argument::First)); },
    };
    let little_radius: u32 = match command_line[index + 1].number {
        Some(bits) => bits,
        None => { return Err(ShapeError::Parse(d, Argument::Second)); },
    };
    let point_distance: u32 = match command_line[index + 2].number {
        Some(bits) => bits,
        None => { return Err(ShapeError::Parse(d, Argument::Third)); },
    };
    match d {
        Directive::Spiro => Ok(Shape::Forward { big_radius, little_radius, point_distance }),
        Directive::Rspiro => Ok(Shape::Reversed { big_radius, little_radius, point_distance }),
    }
}

/// Reads a forward curve from the three words at `index`.
pub fn parse_spiro(index: usize, command_line: &Vec<Token>) -> (shape: Result<Shape, ShapeError>)
    ensures
        shape == read_shape(command_line@, index as int, Directive::Spiro),
{
    parse_arguments(index, command_line, Directive::Spiro)
}

/// Reads a reversed curve from the three words at `index`.
pub fn parse_rspiro(index: usize, command_line: &Vec<Token>) -> (shape: Result<Shape, ShapeError>)
    ensures
        shape == read_shape(command_line@, index as int, Directive::Rspiro),
{
    parse_arguments(index, command_line, Directive::Rspiro)
}

/// Scans the words left to right. Curves come back in the order of their
/// directives; the first fault ends the scan; a scan that ends without a
/// curve is itself a fault.
pub fn parse_shapes(command_line: &Vec<Token>) -> (found: ShapeScan)
    ensures
        found@ == scan(command_line@),
{
    let mut shapes: Vec<Shape> = Vec::new();
    let mut unknown: Vec<usize> = Vec::new();
    let n: usize = command_line.len();
    let mut i: usize = 0;
    while i < n
        invariant
            n == command_line@.len(),
            i <= n,
            scan_from(command_line@, i as int, shapes@, unknown@) == scan(command_line@),
        decreases n - i,
    {
        match directive(&command_line[i].text) {
            Some(d) => {
                let read = match d {
                    Directive::Spiro => parse_spiro(i + 1, command_line),
                    Directive::Rspiro => parse_rspiro(i + 1, command_line),
                };
                match read {
                    Ok(shape) => {
                        shapes.push(shape);
                        i += 4;
                    },
                    Err(e) => {
                        return ShapeScan { unknown, result: Err(e) };
                    },
                }
            },
            None => {
                unknown.push(i);
                i += 1;
            },
        }
    }
    if shapes.len() == 0 {
        ShapeScan { unknown, result: Err(ShapeError::NoShapes) }
    } else {
        ShapeScan { unknown, result: Ok(shapes) }
    }
}

impl ShapeError {
    /// The text of [`ShapeError::message`].
    pub open spec fn message_text(self) -> Seq<char> {
        match self {
            ShapeError::Arity(Directive::Spiro) => "--spiro needs 3 arguments"@,
            ShapeError::Arity(Directive::Rspiro) => "--rspiro needs 3 arguments"@,
            ShapeError::Parse(Directive::Spiro, Argument::First) => "First argument to --spiro must be a number"@,
            ShapeError::Parse(Directive::Spiro, Argument::Second) => "Second argument to --spiro must be a number"@,
            ShapeError::Parse(Directive::Spiro, Argument::Third) => "Third argument to --spiro must be a number"@,
            ShapeError::Parse(Directive::Rspiro, Argument::First) => "First argument to --rspiro must be a number"@,
            ShapeError::Parse(Directive::Rspiro, Argument::Second) => "Second argument to --rspiro must be a number"@,
            ShapeError::Parse(Directive::Rspiro, Argument::Third) => "Third argument to --rspiro must be a number"@,
            ShapeError::NoShapes => "Provide some shapes as command line args"@,
        }
    }

    /// The line to show the user.
    pub fn message(&self) -> (text: String)
        ensures
            text@ == self.message_text(),
    {
        match self {
            ShapeError::Arity(Directive::Spiro) => String::from_str("--spiro needs 3 arguments"),
            ShapeError::Arity(Directive::Rspiro) => String::from_str("--rspiro needs 3 arguments"),
            ShapeError::Parse(Directive::Spiro, Argument::First) => String::from_str(
                "First argument to --spiro must be a number",
            ),
            ShapeError::Parse(Directive::Spiro, Argument::Second) => String::from_str(
                "Second argument to --spiro must be a number",
            ),
            ShapeError::Parse(Directive::Spiro, Argument::Third) => String::from_str(
                "Third argument to --spiro must be a number",
            ),
            ShapeError::Parse(Directive::Rspiro, Argument::First) => String::from_str(
                "First argument to --rspiro must be a number",
            ),
            ShapeError::Parse(Directive::Rspiro, Argument::Second) => String::from_str(
                "Second argument to --rspiro must be a number",
            ),
            ShapeError::Parse(Directive::Rspiro, Argument::Third) => String::from_str(
                "Third argument to --rspiro must be a number",
            ),
            ShapeError::NoShapes => String::from_str("Provide some shapes as command line args"),
        }
    }
}

} // verus!
