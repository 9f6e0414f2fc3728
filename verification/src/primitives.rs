//! The primitive words of J: which spellings are verbs, adverbs, conjunctions
//! or nouns, and what each verb's ranks and inverse are.

use vstd::prelude::*;

use crate::text::{chars_of, same_chars};

verus! {

/// How a primitive verb is implemented: by the names of its monadic and dyadic
/// implementations, with its ranks (monad, dyad left, dyad right; `None` is infinite).
#[derive(Clone, Copy, Debug, PartialEq, Eq)]
pub enum VerbForm {
    Bivalent {
        monad: &'static str,
        dyad: &'static str,
        ranks: (Option<u8>, Option<u8>, Option<u8>),
        inverse: Option<&'static str>,
    },
    MonadOnly { monad: &'static str },
    Cap,
}

/// A row of the primitive verb table.
#[derive(Clone, Copy, Debug, PartialEq, Eq)]
pub struct VerbEntry {
    pub token: &'static str,
    pub form: VerbForm,
}

/// A row of the primitive adverb table.
#[derive(Clone, Copy, Debug, PartialEq, Eq)]
pub struct AdverbEntry {
    pub token: &'static str,
    pub imp: &'static str,
}

/// How a primitive conjunction is implemented.
#[derive(Clone, Copy, Debug, PartialEq, Eq)]
pub enum ConjForm {
    Simple { imp: &'static str },
    Wordy { imp: &'static str },
    Cor,
}

/// A row of the primitive conjunction table.
#[derive(Clone, Copy, Debug, PartialEq, Eq)]
pub struct ConjEntry {
    pub token: &'static str,
    pub form: ConjForm,
}

/// The primitive verbs, in the order they are looked up.
pub open spec fn verb_table_spec() -> Seq<VerbEntry> {
    seq![
        VerbEntry { token: "=", form: VerbForm::Bivalent { monad: "self_classify", dyad: "equal", ranks: (None, Some(0), Some(0)), inverse: None } },
        VerbEntry { token: "<", form: VerbForm::Bivalent { monad: "box", dyad: "less_than", ranks: (None, Some(0), Some(0)), inverse: Some(">") } },
        VerbEntry { token: "<.", form: VerbForm::Bivalent { monad: "floor", dyad: "lesser_of_min", ranks: (Some(0), Some(0), Some(0)), inverse: None } },
        VerbEntry { token: "<:", form: VerbForm::Bivalent { monad: "decrement", dyad: "less_or_equal", ranks: (Some(0), Some(0), Some(0)), inverse: None } },
        VerbEntry { token: ">", form: VerbForm::Bivalent { monad: "open", dyad: "larger_than", ranks: (Some(0), Some(0), Some(0)), inverse: Some("<") } },
        VerbEntry { token: ">.", form: VerbForm::Bivalent { monad: "ceiling", dyad: "larger_of_max", ranks: (Some(0), Some(0), Some(0)), inverse: None } },
        VerbEntry { token: ">:", form: VerbForm::Bivalent { monad: "increment", dyad: "larger_or_equal", ranks: (Some(0), Some(0), Some(0)), inverse: None } },
        VerbEntry { token: "+", form: VerbForm::Bivalent { monad: "conjugate", dyad: "plus", ranks: (Some(0), Some(0), Some(0)), inverse: Some("-") } },
        VerbEntry { token: "+.", form: VerbForm::Bivalent { monad: "real_imaginary", dyad: "gcd_or", ranks: (Some(0), Some(0), Some(0)), inverse: None } },
        VerbEntry { token: "+:", form: VerbForm::Bivalent { monad: "double", dyad: "not_or", ranks: (Some(0), Some(0), Some(0)), inverse: None } },
        VerbEntry { token: "*", form: VerbForm::Bivalent { monad: "signum", dyad: "times", ranks: (Some(0), Some(0), Some(0)), inverse: None } },
        VerbEntry { token: "*.", form: VerbForm::Bivalent { monad: "length_angle", dyad: "lcm_and", ranks: (Some(0), Some(0), Some(0)), inverse: None } },
        VerbEntry { token: "*:", form: VerbForm::Bivalent { monad: "square", dyad: "not_and", ranks: (Some(0), Some(0), Some(0)), inverse: Some("%:") } },
        VerbEntry { token: "-", form: VerbForm::Bivalent { monad: "negate", dyad: "minus", ranks: (Some(0), Some(0), Some(0)), inverse: None } },
        VerbEntry { token: "-.", form: VerbForm::Bivalent { monad: "not", dyad: "less", ranks: (Some(0), None, None), inverse: None } },
        VerbEntry { token: "-:", form: VerbForm::Bivalent { monad: "halve", dyad: "match", ranks: (Some(0), None, None), inverse: None } },
        VerbEntry { token: "%", form: VerbForm::Bivalent { monad: "reciprocal", dyad: "divide", ranks: (Some(0), Some(0), Some(0)), inverse: None } },
        VerbEntry { token: "%.", form: VerbForm::Bivalent { monad: "matrix_inverse", dyad: "matrix_divide", ranks: (Some(2), None, Some(2)), inverse: None } },
        VerbEntry { token: "%:", form: VerbForm::Bivalent { monad: "square_root", dyad: "root", ranks: (Some(0), Some(0), Some(0)), inverse: Some("*:") } },
        VerbEntry { token: "^", form: VerbForm::Bivalent { monad: "exponential", dyad: "power", ranks: (Some(0), Some(0), Some(0)), inverse: None } },
        VerbEntry { token: "^.", form: VerbForm::Bivalent { monad: "natural_log", dyad: "logarithm", ranks: (Some(0), Some(0), Some(0)), inverse: Some("^") } },
        VerbEntry { token: "$", form: VerbForm::Bivalent { monad: "shape_of", dyad: "shape", ranks: (None, Some(1), None), inverse: None } },
        VerbEntry { token: "~.", form: VerbForm::MonadOnly { monad: "nub" } },
        VerbEntry { token: "|", form: VerbForm::Bivalent { monad: "magnitude", dyad: "residue", ranks: (Some(0), Some(0), Some(0)), inverse: None } },
        VerbEntry { token: "|.", form: VerbForm::Bivalent { monad: "reverse", dyad: "rotate_shift", ranks: (None, None, None), inverse: None } },
        VerbEntry { token: "|:", form: VerbForm::Bivalent { monad: "transpose", dyad: "transpose_dyad", ranks: (None, None, None), inverse: None } },
        VerbEntry { token: ",", form: VerbForm::Bivalent { monad: "ravel", dyad: "append", ranks: (None, None, None), inverse: None } },
        VerbEntry { token: ",.", form: VerbForm::Bivalent { monad: "ravel_items", dyad: "stitch", ranks: (None, None, None), inverse: None } },
        VerbEntry { token: ",:", form: VerbForm::Bivalent { monad: "itemize", dyad: "laminate", ranks: (None, None, None), inverse: None } },
        VerbEntry { token: ";", form: VerbForm::Bivalent { monad: "raze", dyad: "link", ranks: (None, None, None), inverse: None } },
        VerbEntry { token: ";:", form: VerbForm::Bivalent { monad: "words", dyad: "sequential_machine", ranks: (Some(1), None, None), inverse: None } },
        VerbEntry { token: "#", form: VerbForm::Bivalent { monad: "tally", dyad: "copy", ranks: (None, Some(1), None), inverse: None } },
        VerbEntry { token: "#.", form: VerbForm::Bivalent { monad: "base_", dyad: "base", ranks: (Some(1), Some(1), Some(1)), inverse: None } },
        VerbEntry { token: "#:", form: VerbForm::Bivalent { monad: "antibase_", dyad: "antibase", ranks: (None, Some(1), Some(0)), inverse: None } },
        VerbEntry { token: "!", form: VerbForm::Bivalent { monad: "factorial", dyad: "out_of", ranks: (Some(0), Some(0), Some(0)), inverse: None } },
        VerbEntry { token: "/:", form: VerbForm::Bivalent { monad: "grade_up", dyad: "sort_up", ranks: (None, None, None), inverse: None } },
        VerbEntry { token: "\\:", form: VerbForm::Bivalent { monad: "grade_down", dyad: "sort_down", ranks: (None, None, None), inverse: None } },
        VerbEntry { token: "[", form: VerbForm::Bivalent { monad: "same", dyad: "left", ranks: (None, None, None), inverse: None } },
        VerbEntry { token: "]", form: VerbForm::Bivalent { monad: "same", dyad: "right", ranks: (None, None, None), inverse: None } },
        VerbEntry { token: "{", form: VerbForm::Bivalent { monad: "catalogue", dyad: "from", ranks: (Some(1), Some(0), None), inverse: None } },
        VerbEntry { token: "{.", form: VerbForm::Bivalent { monad: "head", dyad: "take", ranks: (None, Some(1), None), inverse: None } },
        VerbEntry { token: "{:", form: VerbForm::Bivalent { monad: "tail", dyad: "not_implemented_dyad", ranks: (None, None, None), inverse: None } },
        VerbEntry { token: "}:", form: VerbForm::Bivalent { monad: "curtail", dyad: "not_implemented_dyad", ranks: (None, None, None), inverse: None } },
        VerbEntry { token: "{::", form: VerbForm::Bivalent { monad: "map", dyad: "fetch", ranks: (None, Some(1), None), inverse: None } },
        VerbEntry { token: "}.", form: VerbForm::Bivalent { monad: "behead", dyad: "drop", ranks: (None, Some(1), None), inverse: None } },
        VerbEntry { token: "\".", form: VerbForm::Bivalent { monad: "do", dyad: "numbers", ranks: (Some(1), None, None), inverse: None } },
        VerbEntry { token: "\":", form: VerbForm::Bivalent { monad: "default_format", dyad: "format", ranks: (None, Some(1), None), inverse: None } },
        VerbEntry { token: "?", form: VerbForm::Bivalent { monad: "roll", dyad: "deal", ranks: (Some(0), Some(0), Some(0)), inverse: None } },
        VerbEntry { token: "?.", form: VerbForm::Bivalent { monad: "roll", dyad: "deal_fixed_seed", ranks: (None, Some(0), Some(0)), inverse: None } },
        VerbEntry { token: "A.", form: VerbForm::Bivalent { monad: "anagram_index", dyad: "anagram", ranks: (Some(1), Some(0), None), inverse: None } },
        VerbEntry { token: "C.", form: VerbForm::Bivalent { monad: "cycledirect", dyad: "permute", ranks: (Some(1), Some(1), None), inverse: None } },
        VerbEntry { token: "e.", form: VerbForm::Bivalent { monad: "raze_in", dyad: "member_in", ranks: (None, None, None), inverse: None } },
        VerbEntry { token: "i.", form: VerbForm::Bivalent { monad: "integers", dyad: "index_of", ranks: (Some(1), None, None), inverse: None } },
        VerbEntry { token: "i:", form: VerbForm::Bivalent { monad: "steps", dyad: "index_of_last", ranks: (Some(0), None, None), inverse: None } },
        VerbEntry { token: "I.", form: VerbForm::Bivalent { monad: "indices", dyad: "interval_index", ranks: (Some(1), None, None), inverse: None } },
        VerbEntry { token: "j.", form: VerbForm::Bivalent { monad: "imaginary", dyad: "complex", ranks: (Some(0), Some(0), Some(0)), inverse: None } },
        VerbEntry { token: "o.", form: VerbForm::Bivalent { monad: "pi_times", dyad: "circle_function", ranks: (Some(0), Some(0), Some(0)), inverse: None } },
        VerbEntry { token: "p.", form: VerbForm::Bivalent { monad: "roots", dyad: "polynomial", ranks: (Some(1), Some(1), Some(0)), inverse: None } },
        VerbEntry { token: "p..", form: VerbForm::Bivalent { monad: "poly_deriv", dyad: "poly_integral", ranks: (Some(1), Some(0), Some(1)), inverse: None } },
        VerbEntry { token: "q:", form: VerbForm::Bivalent { monad: "prime_factors", dyad: "prime_exponents", ranks: (Some(0), Some(0), Some(0)), inverse: None } },
        VerbEntry { token: "r.", form: VerbForm::Bivalent { monad: "angle", dyad: "polar", ranks: (Some(0), Some(0), Some(0)), inverse: None } },
        VerbEntry { token: "x:", form: VerbForm::Bivalent { monad: "extend_precision", dyad: "num_denom", ranks: (None, None, None), inverse: None } },
        VerbEntry { token: "$.", form: VerbForm::Bivalent { monad: "not_implemented_monad", dyad: "not_implemented_dyad", ranks: (None, None, None), inverse: None } },
        VerbEntry { token: "$:", form: VerbForm::Bivalent { monad: "not_implemented_monad", dyad: "not_implemented_dyad", ranks: (None, None, None), inverse: None } },
        VerbEntry { token: ".:", form: VerbForm::Bivalent { monad: "not_implemented_monad", dyad: "not_implemented_dyad", ranks: (None, None, None), inverse: None } },
        VerbEntry { token: "..", form: VerbForm::Bivalent { monad: "not_implemented_monad", dyad: "not_implemented_dyad", ranks: (None, None, None), inverse: None } },
        VerbEntry { token: "[:", form: VerbForm::Cap },
        VerbEntry { token: "C.!.2", form: VerbForm::Bivalent { monad: "not_implemented_monad", dyad: "not_implemented_dyad", ranks: (None, None, None), inverse: None } },
        VerbEntry { token: "E.", form: VerbForm::Bivalent { monad: "not_exist_monad", dyad: "member_interval", ranks: (None, None, None), inverse: None } },
        VerbEntry { token: "L.", form: VerbForm::MonadOnly { monad: "levels" } },
        VerbEntry { token: "s:", form: VerbForm::Bivalent { monad: "not_implemented_monad", dyad: "not_implemented_dyad", ranks: (None, None, None), inverse: None } },
        VerbEntry { token: "T.", form: VerbForm::Bivalent { monad: "not_implemented_monad", dyad: "not_implemented_dyad", ranks: (None, None, None), inverse: None } },
        VerbEntry { token: "u:", form: VerbForm::Bivalent { monad: "not_implemented_monad", dyad: "not_implemented_dyad", ranks: (None, None, None), inverse: None } },
        VerbEntry { token: "Z:", form: VerbForm::Bivalent { monad: "not_implemented_monad", dyad: "not_implemented_dyad", ranks: (None, None, None), inverse: None } },
        VerbEntry { token: "u.", form: VerbForm::Bivalent { monad: "not_implemented_monad", dyad: "not_implemented_dyad", ranks: (None, None, None), inverse: None } },
        VerbEntry { token: "v.", form: VerbForm::Bivalent { monad: "not_implemented_monad", dyad: "not_implemented_dyad", ranks: (None, None, None), inverse: None } },
        VerbEntry { token: "plot.", form: VerbForm::MonadOnly { monad: "plot" } },
    ]
}

/// The primitive verbs, in the order they are looked up.
pub fn verb_table() -> (v: Vec<VerbEntry>)
    ensures
        v@ == verb_table_spec(),
{
    let v = vec![
        VerbEntry { token: "=", form: VerbForm::Bivalent { monad: "self_classify", dyad: "equal", ranks: (None, Some(0), Some(0)), inverse: None } },
        VerbEntry { token: "<", form: VerbForm::Bivalent { monad: "box", dyad: "less_than", ranks: (None, Some(0), Some(0)), inverse: Some(">") } },
        VerbEntry { token: "<.", form: VerbForm::Bivalent { monad: "floor", dyad: "lesser_of_min", ranks: (Some(0), Some(0), Some(0)), inverse: None } },
        VerbEntry { token: "<:", form: VerbForm::Bivalent { monad: "decrement", dyad: "less_or_equal", ranks: (Some(0), Some(0), Some(0)), inverse: None } },
        VerbEntry { token: ">", form: VerbForm::Bivalent { monad: "open", dyad: "larger_than", ranks: (Some(0), Some(0), Some(0)), inverse: Some("<") } },
        VerbEntry { token: ">.", form: VerbForm::Bivalent { monad: "ceiling", dyad: "larger_of_max", ranks: (Some(0), Some(0), Some(0)), inverse: None } },
        VerbEntry { token: ">:", form: VerbForm::Bivalent { monad: "increment", dyad: "larger_or_equal", ranks: (Some(0), Some(0), Some(0)), inverse: None } },
        VerbEntry { token: "+", form: VerbForm::Bivalent { monad: "conjugate", dyad: "plus", ranks: (Some(0), Some(0), Some(0)), inverse: Some("-") } },
        VerbEntry { token: "+.", form: VerbForm::Bivalent { monad: "real_imaginary", dyad: "gcd_or", ranks: (Some(0), Some(0), Some(0)), inverse: None } },
        VerbEntry { token: "+:", form: VerbForm::Bivalent { monad: "double", dyad: "not_or", ranks: (Some(0), Some(0), Some(0)), inverse: None } },
        VerbEntry { token: "*", form: VerbForm::Bivalent { monad: "signum", dyad: "times", ranks: (Some(0), Some(0), Some(0)), inverse: None } },
        VerbEntry { token: "*.", form: VerbForm::Bivalent { monad: "length_angle", dyad: "lcm_and", ranks: (Some(0), Some(0), Some(0)), inverse: None } },
        VerbEntry { token: "*:", form: VerbForm::Bivalent { monad: "square", dyad: "not_and", ranks: (Some(0), Some(0), Some(0)), inverse: Some("%:") } },
        VerbEntry { token: "-", form: VerbForm::Bivalent { monad: "negate", dyad: "minus", ranks: (Some(0), Some(0), Some(0)), inverse: None } },
        VerbEntry { token: "-.", form: VerbForm::Bivalent { monad: "not", dyad: "less", ranks: (Some(0), None, None), inverse: None } },
        VerbEntry { token: "-:", form: VerbForm::Bivalent { monad: "halve", dyad: "match", ranks: (Some(0), None, None), inverse: None } },
        VerbEntry { token: "%", form: VerbForm::Bivalent { monad: "reciprocal", dyad: "divide", ranks: (Some(0), Some(0), Some(0)), inverse: None } },
        VerbEntry { token: "%.", form: VerbForm::Bivalent { monad: "matrix_inverse", dyad: "matrix_divide", ranks: (Some(2), None, Some(2)), inverse: None } },
        VerbEntry { token: "%:", form: VerbForm::Bivalent { monad: "square_root", dyad: "root", ranks: (Some(0), Some(0), Some(0)), inverse: Some("*:") } },
        VerbEntry { token: "^", form: VerbForm::Bivalent { monad: "exponential", dyad: "power", ranks: (Some(0), Some(0), Some(0)), inverse: None } },
        VerbEntry { token: "^.", form: VerbForm::Bivalent { monad: "natural_log", dyad: "logarithm", ranks: (Some(0), Some(0), Some(0)), inverse: Some("^") } },
        VerbEntry { token: "$", form: VerbForm::Bivalent { monad: "shape_of", dyad: "shape", ranks: (None, Some(1), None), inverse: None } },
        VerbEntry { token: "~.", form: VerbForm::MonadOnly { monad: "nub" } },
        VerbEntry { token: "|", form: VerbForm::Bivalent { monad: "magnitude", dyad: "residue", ranks: (Some(0), Some(0), Some(0)), inverse: None } },
        VerbEntry { token: "|.", form: VerbForm::Bivalent { monad: "reverse", dyad: "rotate_shift", ranks: (None, None, None), inverse: None } },
        VerbEntry { token: "|:", form: VerbForm::Bivalent { monad: "transpose", dyad: "transpose_dyad", ranks: (None, None, None), inverse: None } },
        VerbEntry { token: ",", form: VerbForm::Bivalent { monad: "ravel", dyad: "append", ranks: (None, None, None), inverse: None } },
        VerbEntry { token: ",.", form: VerbForm::Bivalent { monad: "ravel_items", dyad: "stitch", ranks: (None, None, None), inverse: None } },
        VerbEntry { token: ",:", form: VerbForm::Bivalent { monad: "itemize", dyad: "laminate", ranks: (None, None, None), inverse: None } },
        VerbEntry { token: ";", form: VerbForm::Bivalent { monad: "raze", dyad: "link", ranks: (None, None, None), inverse: None } },
        VerbEntry { token: ";:", form: VerbForm::Bivalent { monad: "words", dyad: "sequential_machine", ranks: (Some(1), None, None), inverse: None } },
        VerbEntry { token: "#", form: VerbForm::Bivalent { monad: "tally", dyad: "copy", ranks: (None, Some(1), None), inverse: None } },
        VerbEntry { token: "#.", form: VerbForm::Bivalent { monad: "base_", dyad: "base", ranks: (Some(1), Some(1), Some(1)), inverse: None } },
        VerbEntry { token: "#:", form: VerbForm::Bivalent { monad: "antibase_", dyad: "antibase", ranks: (None, Some(1), Some(0)), inverse: None } },
        VerbEntry { token: "!", form: VerbForm::Bivalent { monad: "factorial", dyad: "out_of", ranks: (Some(0), Some(0), Some(0)), inverse: None } },
        VerbEntry { token: "/:", form: VerbForm::Bivalent { monad: "grade_up", dyad: "sort_up", ranks: (None, None, None), inverse: None } },
        VerbEntry { token: "\\:", form: VerbForm::Bivalent { monad: "grade_down", dyad: "sort_down", ranks: (None, None, None), inverse: None } },
        VerbEntry { token: "[", form: VerbForm::Bivalent { monad: "same", dyad: "left", ranks: (None, None, None), inverse: None } },
        VerbEntry { token: "]", form: VerbForm::Bivalent { monad: "same", dyad: "right", ranks: (None, None, None), inverse: None } },
        VerbEntry { token: "{", form: VerbForm::Bivalent { monad: "catalogue", dyad: "from", ranks: (Some(1), Some(0), None), inverse: None } },
        VerbEntry { token: "{.", form: VerbForm::Bivalent { monad: "head", dyad: "take", ranks: (None, Some(1), None), inverse: None } },
        VerbEntry { token: "{:", form: VerbForm::Bivalent { monad: "tail", dyad: "not_implemented_dyad", ranks: (None, None, None), inverse: None } },
        VerbEntry { token: "}:", form: VerbForm::Bivalent { monad: "curtail", dyad: "not_implemented_dyad", ranks: (None, None, None), inverse: None } },
        VerbEntry { token: "{::", form: VerbForm::Bivalent { monad: "map", dyad: "fetch", ranks: (None, Some(1), None), inverse: None } },
        VerbEntry { token: "}.", form: VerbForm::Bivalent { monad: "behead", dyad: "drop", ranks: (None, Some(1), None), inverse: None } },
        VerbEntry { token: "\".", form: VerbForm::Bivalent { monad: "do", dyad: "numbers", ranks: (Some(1), None, None), inverse: None } },
        VerbEntry { token: "\":", form: VerbForm::Bivalent { monad: "default_format", dyad: "format", ranks: (None, Some(1), None), inverse: None } },
        VerbEntry { token: "?", form: VerbForm::Bivalent { monad: "roll", dyad: "deal", ranks: (Some(0), Some(0), Some(0)), inverse: None } },
        VerbEntry { token: "?.", form: VerbForm::Bivalent { monad: "roll", dyad: "deal_fixed_seed", ranks: (None, Some(0), Some(0)), inverse: None } },
        VerbEntry { token: "A.", form: VerbForm::Bivalent { monad: "anagram_index", dyad: "anagram", ranks: (Some(1), Some(0), None), inverse: None } },
        VerbEntry { token: "C.", form: VerbForm::Bivalent { monad: "cycledirect", dyad: "permute", ranks: (Some(1), Some(1), None), inverse: None } },
        VerbEntry { token: "e.", form: VerbForm::Bivalent { monad: "raze_in", dyad: "member_in", ranks: (None, None, None), inverse: None } },
        VerbEntry { token: "i.", form: VerbForm::Bivalent { monad: "integers", dyad: "index_of", ranks: (Some(1), None, None), inverse: None } },
        VerbEntry { token: "i:", form: VerbForm::Bivalent { monad: "steps", dyad: "index_of_last", ranks: (Some(0), None, None), inverse: None } },
        VerbEntry { token: "I.", form: VerbForm::Bivalent { monad: "indices", dyad: "interval_index", ranks: (Some(1), None, None), inverse: None } },
        VerbEntry { token: "j.", form: VerbForm::Bivalent { monad: "imaginary", dyad: "complex", ranks: (Some(0), Some(0), Some(0)), inverse: None } },
        VerbEntry { token: "o.", form: VerbForm::Bivalent { monad: "pi_times", dyad: "circle_function", ranks: (Some(0), Some(0), Some(0)), inverse: None } },
        VerbEntry { token: "p.", form: VerbForm::Bivalent { monad: "roots", dyad: "polynomial", ranks: (Some(1), Some(1), Some(0)), inverse: None } },
        VerbEntry { token: "p..", form: VerbForm::Bivalent { monad: "poly_deriv", dyad: "poly_integral", ranks: (Some(1), Some(0), Some(1)), inverse: None } },
        VerbEntry { token: "q:", form: VerbForm::Bivalent { monad: "prime_factors", dyad: "prime_exponents", ranks: (Some(0), Some(0), Some(0)), inverse: None } },
        VerbEntry { token: "r.", form: VerbForm::Bivalent { monad: "angle", dyad: "polar", ranks: (Some(0), Some(0), Some(0)), inverse: None } },
        VerbEntry { token: "x:", form: VerbForm::Bivalent { monad: "extend_precision", dyad: "num_denom", ranks: (None, None, None), inverse: None } },
        VerbEntry { token: "$.", form: VerbForm::Bivalent { monad: "not_implemented_monad", dyad: "not_implemented_dyad", ranks: (None, None, None), inverse: None } },
        VerbEntry { token: "$:", form: VerbForm::Bivalent { monad: "not_implemented_monad", dyad: "not_implemented_dyad", ranks: (None, None, None), inverse: None } },
        VerbEntry { token: ".:", form: VerbForm::Bivalent { monad: "not_implemented_monad", dyad: "not_implemented_dyad", ranks: (None, None, None), inverse: None } },
        VerbEntry { token: "..", form: VerbForm::Bivalent { monad: "not_implemented_monad", dyad: "not_implemented_dyad", ranks: (None, None, None), inverse: None } },
        VerbEntry { token: "[:", form: VerbForm::Cap },
        VerbEntry { token: "C.!.2", form: VerbForm::Bivalent { monad: "not_implemented_monad", dyad: "not_implemented_dyad", ranks: (None, None, None), inverse: None } },
        VerbEntry { token: "E.", form: VerbForm::Bivalent { monad: "not_exist_monad", dyad: "member_interval", ranks: (None, None, None), inverse: None } },
        VerbEntry { token: "L.", form: VerbForm::MonadOnly { monad: "levels" } },
        VerbEntry { token: "s:", form: VerbForm::Bivalent { monad: "not_implemented_monad", dyad: "not_implemented_dyad", ranks: (None, None, None), inverse: None } },
        VerbEntry { token: "T.", form: VerbForm::Bivalent { monad: "not_implemented_monad", dyad: "not_implemented_dyad", ranks: (None, None, None), inverse: None } },
        VerbEntry { token: "u:", form: VerbForm::Bivalent { monad: "not_implemented_monad", dyad: "not_implemented_dyad", ranks: (None, None, None), inverse: None } },
        VerbEntry { token: "Z:", form: VerbForm::Bivalent { monad: "not_implemented_monad", dyad: "not_implemented_dyad", ranks: (None, None, None), inverse: None } },
        VerbEntry { token: "u.", form: VerbForm::Bivalent { monad: "not_implemented_monad", dyad: "not_implemented_dyad", ranks: (None, None, None), inverse: None } },
        VerbEntry { token: "v.", form: VerbForm::Bivalent { monad: "not_implemented_monad", dyad: "not_implemented_dyad", ranks: (None, None, None), inverse: None } },
        VerbEntry { token: "plot.", form: VerbForm::MonadOnly { monad: "plot" } },
    ];
    assert(v@ =~= verb_table_spec());
    v
}

/// The primitive adverbs.
pub open spec fn adverb_table_spec() -> Seq<AdverbEntry> {
    seq![
        AdverbEntry { token: "~", imp: "tilde" },
        AdverbEntry { token: "/", imp: "slash" },
        AdverbEntry { token: "/.", imp: "slash_dot" },
        AdverbEntry { token: "\\", imp: "backslash" },
        AdverbEntry { token: "\\.", imp: "suffix_outfix" },
        AdverbEntry { token: "]:", imp: "not_implemented" },
        AdverbEntry { token: "}", imp: "curlyrt" },
        AdverbEntry { token: "b.", imp: "bdot" },
        AdverbEntry { token: "f.", imp: "not_implemented" },
        AdverbEntry { token: "M.", imp: "not_implemented" },
    ]
}

/// The primitive adverbs.
pub fn adverb_table() -> (v: Vec<AdverbEntry>)
    ensures
        v@ == adverb_table_spec(),
{
    let v = vec![
        AdverbEntry { token: "~", imp: "tilde" },
        AdverbEntry { token: "/", imp: "slash" },
        AdverbEntry { token: "/.", imp: "slash_dot" },
        AdverbEntry { token: "\\", imp: "backslash" },
        AdverbEntry { token: "\\.", imp: "suffix_outfix" },
        AdverbEntry { token: "]:", imp: "not_implemented" },
        AdverbEntry { token: "}", imp: "curlyrt" },
        AdverbEntry { token: "b.", imp: "bdot" },
        AdverbEntry { token: "f.", imp: "not_implemented" },
        AdverbEntry { token: "M.", imp: "not_implemented" },
    ];
    assert(v@ =~= adverb_table_spec());
    v
}

/// The primitive conjunctions.
pub open spec fn conjunction_table_spec() -> Seq<ConjEntry> {
    seq![
        ConjEntry { token: "^:", form: ConjForm::Simple { imp: "hatco" } },
        ConjEntry { token: ".", form: ConjForm::Simple { imp: "not_implemented" } },
        ConjEntry { token: ":", form: ConjForm::Cor },
        ConjEntry { token: ":.", form: ConjForm::Simple { imp: "not_implemented" } },
        ConjEntry { token: "::", form: ConjForm::Simple { imp: "assign_adverse" } },
        ConjEntry { token: ";.", form: ConjForm::Simple { imp: "cut" } },
        ConjEntry { token: "!.", form: ConjForm::Simple { imp: "not_implemented" } },
        ConjEntry { token: "!:", form: ConjForm::Simple { imp: "foreign" } },
        ConjEntry { token: "[.", form: ConjForm::Simple { imp: "not_implemented" } },
        ConjEntry { token: "].", form: ConjForm::Simple { imp: "not_implemented" } },
        ConjEntry { token: "\"", form: ConjForm::Simple { imp: "quote" } },
        ConjEntry { token: "`", form: ConjForm::Wordy { imp: "tie" } },
        ConjEntry { token: "`:", form: ConjForm::Simple { imp: "not_implemented" } },
        ConjEntry { token: "@", form: ConjForm::Simple { imp: "atop" } },
        ConjEntry { token: "@.", form: ConjForm::Wordy { imp: "agenda" } },
        ConjEntry { token: "@:", form: ConjForm::Simple { imp: "at" } },
        ConjEntry { token: "&", form: ConjForm::Simple { imp: "bondo" } },
        ConjEntry { token: "&.", form: ConjForm::Simple { imp: "under" } },
        ConjEntry { token: "&:", form: ConjForm::Simple { imp: "not_implemented" } },
        ConjEntry { token: "&.:", form: ConjForm::Simple { imp: "not_implemented" } },
        ConjEntry { token: "d.", form: ConjForm::Simple { imp: "not_implemented" } },
        ConjEntry { token: "D.", form: ConjForm::Simple { imp: "not_implemented" } },
        ConjEntry { token: "D:", form: ConjForm::Simple { imp: "not_implemented" } },
        ConjEntry { token: "F.", form: ConjForm::Simple { imp: "not_implemented" } },
        ConjEntry { token: "F..", form: ConjForm::Simple { imp: "not_implemented" } },
        ConjEntry { token: "F.:", form: ConjForm::Simple { imp: "not_implemented" } },
        ConjEntry { token: "F:", form: ConjForm::Simple { imp: "not_implemented" } },
        ConjEntry { token: "F:.", form: ConjForm::Simple { imp: "not_implemented" } },
        ConjEntry { token: "F::", form: ConjForm::Simple { imp: "not_implemented" } },
        ConjEntry { token: "H.", form: ConjForm::Simple { imp: "not_implemented" } },
        ConjEntry { token: "L:", form: ConjForm::Simple { imp: "not_implemented" } },
        ConjEntry { token: "S:", form: ConjForm::Simple { imp: "not_implemented" } },
        ConjEntry { token: "t.", form: ConjForm::Simple { imp: "not_implemented" } },
    ]
}

/// The primitive conjunctions.
pub fn conjunction_table() -> (v: Vec<ConjEntry>)
    ensures
        v@ == conjunction_table_spec(),
{
    let v = vec![
        ConjEntry { token: "^:", form: ConjForm::Simple { imp: "hatco" } },
        ConjEntry { token: ".", form: ConjForm::Simple { imp: "not_implemented" } },
        ConjEntry { token: ":", form: ConjForm::Cor },
        ConjEntry { token: ":.", form: ConjForm::Simple { imp: "not_implemented" } },
        ConjEntry { token: "::", form: ConjForm::Simple { imp: "assign_adverse" } },
        ConjEntry { token: ";.", form: ConjForm::Simple { imp: "cut" } },
        ConjEntry { token: "!.", form: ConjForm::Simple { imp: "not_implemented" } },
        ConjEntry { token: "!:", form: ConjForm::Simple { imp: "foreign" } },
        ConjEntry { token: "[.", form: ConjForm::Simple { imp: "not_implemented" } },
        ConjEntry { token: "].", form: ConjForm::Simple { imp: "not_implemented" } },
        ConjEntry { token: "\"", form: ConjForm::Simple { imp: "quote" } },
        ConjEntry { token: "`", form: ConjForm::Wordy { imp: "tie" } },
        ConjEntry { token: "`:", form: ConjForm::Simple { imp: "not_implemented" } },
        ConjEntry { token: "@", form: ConjForm::Simple { imp: "atop" } },
        ConjEntry { token: "@.", form: ConjForm::Wordy { imp: "agenda" } },
        ConjEntry { token: "@:", form: ConjForm::Simple { imp: "at" } },
        ConjEntry { token: "&", form: ConjForm::Simple { imp: "bondo" } },
        ConjEntry { token: "&.", form: ConjForm::Simple { imp: "under" } },
        ConjEntry { token: "&:", form: ConjForm::Simple { imp: "not_implemented" } },
        ConjEntry { token: "&.:", form: ConjForm::Simple { imp: "not_implemented" } },
        ConjEntry { token: "d.", form: ConjForm::Simple { imp: "not_implemented" } },
        ConjEntry { token: "D.", form: ConjForm::Simple { imp: "not_implemented" } },
        ConjEntry { token: "D:", form: ConjForm::Simple { imp: "not_implemented" } },
        ConjEntry { token: "F.", form: ConjForm::Simple { imp: "not_implemented" } },
        ConjEntry { token: "F..", form: ConjForm::Simple { imp: "not_implemented" } },
        ConjEntry { token: "F.:", form: ConjForm::Simple { imp: "not_implemented" } },
        ConjEntry { token: "F:", form: ConjForm::Simple { imp: "not_implemented" } },
        ConjEntry { token: "F:.", form: ConjForm::Simple { imp: "not_implemented" } },
        ConjEntry { token: "F::", form: ConjForm::Simple { imp: "not_implemented" } },
        ConjEntry { token: "H.", form: ConjForm::Simple { imp: "not_implemented" } },
        ConjEntry { token: "L:", form: ConjForm::Simple { imp: "not_implemented" } },
        ConjEntry { token: "S:", form: ConjForm::Simple { imp: "not_implemented" } },
        ConjEntry { token: "t.", form: ConjForm::Simple { imp: "not_implemented" } },
    ];
    assert(v@ =~= conjunction_table_spec());
    v
}

/// The first row of `table` spelt `t`.
pub open spec fn find_verb(table: Seq<VerbEntry>, t: Seq<char>) -> Option<VerbEntry>
    decreases table.len(),
{
    if table.len() == 0 {
        None
    } else if table[0].token@ == t {
        Some(table[0])
    } else {
        find_verb(table.drop_first(), t)
    }
}

/// The first row of `table` spelt `t`.
pub open spec fn find_adverb(table: Seq<AdverbEntry>, t: Seq<char>) -> Option<AdverbEntry>
    decreases table.len(),
{
    if table.len() == 0 {
        None
    } else if table[0].token@ == t {
        Some(table[0])
    } else {
        find_adverb(table.drop_first(), t)
    }
}

/// The first row of `table` spelt `t`.
pub open spec fn find_conjunction(table: Seq<ConjEntry>, t: Seq<char>) -> Option<ConjEntry>
    decreases table.len(),
{
    if table.len() == 0 {
        None
    } else if table[0].token@ == t {
        Some(table[0])
    } else {
        find_conjunction(table.drop_first(), t)
    }
}

/// The primitive verb spelt `t`, if there is one.
pub open spec fn verb_named(t: Seq<char>) -> Option<VerbEntry> {
    find_verb(verb_table_spec(), t)
}

/// The primitive adverb spelt `t`, if there is one.
pub open spec fn adverb_named(t: Seq<char>) -> Option<AdverbEntry> {
    find_adverb(adverb_table_spec(), t)
}

/// The primitive conjunction spelt `t`, if there is one.
pub open spec fn conjunction_named(t: Seq<char>) -> Option<ConjEntry> {
    find_conjunction(conjunction_table_spec(), t)
}

/// The spellings of the primitive nouns.
pub open spec fn noun_tokens() -> Seq<Seq<char>> {
    seq!["a."@, "a:"@]
}

pub(crate) fn lookup_verb(t: &[char]) -> (r: Option<VerbEntry>)
    ensures
        r == verb_named(t@),
{
    let table = verb_table();
    let mut i: usize = 0;
    assert(table@.skip(0) =~= table@);
    while i < table.len()
        invariant
            table@ == verb_table_spec(),
            i <= table@.len(),
            find_verb(table@, t@) == find_verb(table@.skip(i as int), t@),
        decreases table@.len() - i,
    {
        let e = table[i];
        let tok = chars_of(e.token);
        assert(table@.skip(i as int).drop_first() =~= table@.skip(i + 1));
        if same_chars(tok.as_slice(), t) {
            return Some(e);
        }
        i += 1;
    }
    None
}

pub(crate) fn lookup_adverb(t: &[char]) -> (r: Option<AdverbEntry>)
    ensures
        r == adverb_named(t@),
{
    let table = adverb_table();
    let mut i: usize = 0;
    assert(table@.skip(0) =~= table@);
    while i < table.len()
        invariant
            table@ == adverb_table_spec(),
            i <= table@.len(),
            find_adverb(table@, t@) == find_adverb(table@.skip(i as int), t@),
        decreases table@.len() - i,
    {
        let e = table[i];
        let tok = chars_of(e.token);
        assert(table@.skip(i as int).drop_first() =~= table@.skip(i + 1));
        if same_chars(tok.as_slice(), t) {
            return Some(e);
        }
        i += 1;
    }
    None
}

pub(crate) fn lookup_conjunction(t: &[char]) -> (r: Option<ConjEntry>)
    ensures
        r == conjunction_named(t@),
{
    let table = conjunction_table();
    let mut i: usize = 0;
    assert(table@.skip(0) =~= table@);
    while i < table.len()
        invariant
            table@ == conjunction_table_spec(),
            i <= table@.len(),
            find_conjunction(table@, t@) == find_conjunction(table@.skip(i as int), t@),
        decreases table@.len() - i,
    {
        let e = table[i];
        let tok = chars_of(e.token);
        assert(table@.skip(i as int).drop_first() =~= table@.skip(i + 1));
        if same_chars(tok.as_slice(), t) {
            return Some(e);
        }
        i += 1;
    }
    None
}

pub(crate) fn is_noun_token(t: &[char]) -> (r: bool)
    ensures
        r == noun_tokens().contains(t@),
{
    let a = chars_of("a.");
    let b = chars_of("a:");
    let r = same_chars(a.as_slice(), t) || same_chars(b.as_slice(), t);
    assert(noun_tokens()[0] == "a."@ && noun_tokens()[1] == "a:"@);
    if r {
        assert(noun_tokens().contains(t@));
    } else {
        assert forall|k: int| 0 <= k < noun_tokens().len() implies noun_tokens()[k] != t@ by {}
    }
    r
}

/// The primitive verb spelt `sentence`.
pub fn primitive_verbs(sentence: &str) -> (r: Option<VerbEntry>)
    ensures
        r == verb_named(sentence@),
{
    let t = chars_of(sentence);
    lookup_verb(t.as_slice())
}

/// The primitive adverb spelt `sentence`.
pub fn primitive_adverbs(sentence: &str) -> (r: Option<AdverbEntry>)
    ensures
        r == adverb_named(sentence@),
{
    let t = chars_of(sentence);
    lookup_adverb(t.as_slice())
}

/// The primitive conjunction spelt `sentence`.
pub fn primitive_conjunctions(sentence: &str) -> (r: Option<ConjEntry>)
    ensures
        r == conjunction_named(sentence@),
{
    let t = chars_of(sentence);
    lookup_conjunction(t.as_slice())
}

} // verus!
