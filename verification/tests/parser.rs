use spirograph::shapes::{
    directive, parse_rspiro, parse_shapes, parse_spiro, Argument, Directive, Shape, ShapeError,
};
use spirograph::sim_interface::Token;

fn tokens(words: &[&str]) -> Vec<Token> {
    words
        .iter()
        .map(|w| Token { text: w.to_string(), number: w.parse::<f32>().ok().map(f32::to_bits) })
        .collect()
}

fn forward(big: f32, little: f32, distance: f32) -> Shape {
    Shape::Forward {
        big_radius: big.to_bits(),
        little_radius: little.to_bits(),
        point_distance: distance.to_bits(),
    }
}

fn reversed(big: f32, little: f32, distance: f32) -> Shape {
    Shape::Reversed {
        big_radius: big.to_bits(),
        little_radius: little.to_bits(),
        point_distance: distance.to_bits(),
    }
}

#[test]
fn one_spiro_directive_gives_one_forward_curve() {
    let found = parse_shapes(&tokens(&["--spiro", "100", "30", "1.2"]));
    assert_eq!(found.result, Ok(vec![forward(100.0, 30.0, 1.2)]));
    assert!(found.unknown.is_empty());
}

#[test]
fn one_rspiro_directive_gives_one_reversed_curve() {
    let found = parse_shapes(&tokens(&["--rspiro", "80", "-12.5", "0.5"]));
    assert_eq!(found.result, Ok(vec![reversed(80.0, -12.5, 0.5)]));
    assert!(found.unknown.is_empty());
}

#[test]
fn directive_short_of_arguments_is_an_arity_error() {
    let found = parse_shapes(&tokens(&["--spiro", "100", "30"]));
    assert_eq!(found.result, Err(ShapeError::Arity(Directive::Spiro)));
    let found = parse_shapes(&tokens(&["--rspiro"]));
    assert_eq!(found.result, Err(ShapeError::Arity(Directive::Rspiro)));
}

#[test]
fn argument_that_is_no_number_is_a_parse_error() {
    let found = parse_shapes(&tokens(&["--spiro", "x", "30", "1.2"]));
    assert_eq!(found.result, Err(ShapeError::Parse(Directive::Spiro, Argument::First)));
    let found = parse_shapes(&tokens(&["--spiro", "1", "y", "1.2"]));
    assert_eq!(found.result, Err(ShapeError::Parse(Directive::Spiro, Argument::Second)));
    let found = parse_shapes(&tokens(&["--rspiro", "1", "2", "--spiro"]));
    assert_eq!(found.result, Err(ShapeError::Parse(Directive::Rspiro, Argument::Third)));
}

#[test]
fn leftmost_bad_argument_is_reported() {
    let found = parse_shapes(&tokens(&["--spiro", "a", "b", "c"]));
    assert_eq!(found.result, Err(ShapeError::Parse(Directive::Spiro, Argument::First)));
}

#[test]
fn arity_is_checked_before_the_numbers() {
    let found = parse_shapes(&tokens(&["--spiro", "x", "y"]));
    assert_eq!(found.result, Err(ShapeError::Arity(Directive::Spiro)));
}

#[test]
fn empty_command_line_has_no_shapes() {
    let found = parse_shapes(&tokens(&[]));
    assert_eq!(found.result, Err(ShapeError::NoShapes));
    assert!(found.unknown.is_empty());
}

#[test]
fn only_unknown_words_have_no_shapes() {
    let found = parse_shapes(&tokens(&["prog", "--foo", "12"]));
    assert_eq!(found.result, Err(ShapeError::NoShapes));
    assert_eq!(found.unknown, vec![0, 1, 2]);
}

#[test]
fn unknown_word_is_noted_and_skipped() {
    let found = parse_shapes(&tokens(&["--foo", "--spiro", "1", "1", "1"]));
    assert_eq!(found.result, Ok(vec![forward(1.0, 1.0, 1.0)]));
    assert_eq!(found.unknown, vec![0]);
}

#[test]
fn curves_keep_the_order_of_their_directives() {
    let found = parse_shapes(&tokens(&[
        "prog", "--rspiro", "200", "70", "0.8", "stray", "--spiro", "100", "30", "1.2", "--rspiro",
        "1e2", ".5", "3",
    ]));
    assert_eq!(
        found.result,
        Ok(vec![reversed(200.0, 70.0, 0.8), forward(100.0, 30.0, 1.2), reversed(100.0, 0.5, 3.0)])
    );
    assert_eq!(found.unknown, vec![0, 5]);
}

#[test]
fn a_fault_discards_earlier_curves_and_keeps_earlier_warnings() {
    let found =
        parse_shapes(&tokens(&["what", "--spiro", "1", "2", "3", "--rspiro", "4", "oops", "6", "late"]));
    assert_eq!(found.result, Err(ShapeError::Parse(Directive::Rspiro, Argument::Second)));
    assert_eq!(found.unknown, vec![0]);
}

#[test]
fn arguments_are_consumed_even_when_they_spell_a_directive() {
    let found = parse_shapes(&tokens(&["--spiro", "1", "2", "3", "4"]));
    assert_eq!(found.result, Ok(vec![forward(1.0, 2.0, 3.0)]));
    assert_eq!(found.unknown, vec![4]);
}

#[test]
fn directive_words_are_matched_exactly() {
    assert_eq!(directive(&"--spiro".to_string()), Some(Directive::Spiro));
    assert_eq!(directive(&"--rspiro".to_string()), Some(Directive::Rspiro));
    assert_eq!(directive(&"--Spiro".to_string()), None);
    assert_eq!(directive(&"--spiro ".to_string()), None);
    assert_eq!(directive(&"spiro".to_string()), None);
    assert_eq!(directive(&"".to_string()), None);
}

#[test]
fn parse_spiro_reads_three_words_at_an_index() {
    let words = tokens(&["a", "5", "6", "7"]);
    assert_eq!(parse_spiro(1, &words), Ok(forward(5.0, 6.0, 7.0)));
    assert_eq!(parse_spiro(2, &words), Err(ShapeError::Arity(Directive::Spiro)));
    assert_eq!(parse_spiro(0, &words), Err(ShapeError::Parse(Directive::Spiro, Argument::First)));
    assert_eq!(parse_spiro(usize::MAX, &words), Err(ShapeError::Arity(Directive::Spiro)));
}

#[test]
fn parse_rspiro_reads_three_words_at_an_index() {
    let words = tokens(&["5", "6", "z"]);
    assert_eq!(parse_rspiro(0, &words), Err(ShapeError::Parse(Directive::Rspiro, Argument::Third)));
    let words = tokens(&["5", "6", "7"]);
    assert_eq!(parse_rspiro(0, &words), Ok(reversed(5.0, 6.0, 7.0)));
    assert_eq!(parse_rspiro(1, &words), Err(ShapeError::Arity(Directive::Rspiro)));
}

#[test]
fn error_messages_name_the_directive_and_the_argument() {
    assert_eq!(ShapeError::Arity(Directive::Spiro).message(), "--spiro needs 3 arguments");
    assert_eq!(ShapeError::Arity(Directive::Rspiro).message(), "--rspiro needs 3 arguments");
    assert_eq!(
        ShapeError::Parse(Directive::Spiro, Argument::First).message(),
        "First argument to --spiro must be a number"
    );
    assert_eq!(
        ShapeError::Parse(Directive::Spiro, Argument::Second).message(),
        "Second argument to --spiro must be a number"
    );
    assert_eq!(
        ShapeError::Parse(Directive::Spiro, Argument::Third).message(),
        "Third argument to --spiro must be a number"
    );
    assert_eq!(
        ShapeError::Parse(Directive::Rspiro, Argument::First).message(),
        "First argument to --rspiro must be a number"
    );
    assert_eq!(
        ShapeError::Parse(Directive::Rspiro, Argument::Second).message(),
        "Second argument to --rspiro must be a number"
    );
    assert_eq!(
        ShapeError::Parse(Directive::Rspiro, Argument::Third).message(),
        "Third argument to --rspiro must be a number"
    );
    assert_eq!(ShapeError::NoShapes.message(), "Provide some shapes as command line args");
}
