//! The names of the functions generated for a test.
//!
//! Every test gets four functions and one option type. The functions carry
//! a random suffix, so that one file can hold several tests; the option
//! type is found by its name, which follows from the name of the test.

use vstd::prelude::*;
use vstd::string::StringExecFns;
use crate::codec::text::{all_ascii, ascii_chars, ascii_text};

verus! {

/// The length of the random suffix of generated names.
pub const SUFFIX_LEN: usize = 7;

/// `inflections::case::to_pascal_case` applied to `text`.
pub uninterp spec fn pascal_case(text: Seq<char>) -> Seq<char>;

/// `inflections::case::to_pascal_case`: the text in PascalCase. Separators
/// (space, hyphen, underscore) are dropped and the letter after each is
/// capitalised, as is the first.
#[verifier::external_body]
fn to_pascal_case(text: &str) -> (r: String)
    ensures
        r@ == pascal_case(text@),
{
    inflections::case::to_pascal_case(text)
}

/// Whether `b` is an ASCII letter or digit.
pub open spec fn is_alphanumeric(b: u8) -> bool {
    ||| 0x30 <= b <= 0x39
    ||| 0x41 <= b <= 0x5a
    ||| 0x61 <= b <= 0x7a
}

/// `rand::Rng::sample` with `rand::distributions::Alphanumeric` on
/// `rand::thread_rng()`: one byte drawn from the ASCII letters and digits.
#[verifier::external_body]
fn random_alphanumeric() -> (b: u8)
    ensures
        is_alphanumeric(b),
{
    rand::Rng::sample(&mut rand::thread_rng(), rand::distributions::Alphanumeric)
}

/// Whether `text` is made of ASCII letters and digits only.
pub open spec fn is_suffix(text: Seq<char>) -> bool {
    exists|bytes: Seq<u8>|
        #![trigger ascii_chars(bytes)]
        text == ascii_chars(bytes) && forall|i: int|
            0 <= i < bytes.len() ==> is_alphanumeric(#[trigger] bytes[i])
}

/// A random suffix of `len` ASCII letters and digits.
pub fn random_suffix(len: usize) -> (r: String)
    ensures
        r@.len() == len,
        is_suffix(r@),
{
    let mut bytes: Vec<u8> = Vec::new();
    let mut i: usize = 0;
    while i < len
        invariant
            i <= len,
            bytes@.len() == i,
            forall|k: int| 0 <= k < bytes@.len() ==> is_alphanumeric(#[trigger] bytes@[k]),
        decreases len - i,
    {
        bytes.push(random_alphanumeric());
        i = i + 1;
    }
    assert(all_ascii(bytes@));
    ascii_text(bytes.as_slice())
}

/// The names generated for one test.
#[derive(Debug, Clone, PartialEq, Eq)]
pub struct GeneratedNames {
    /// The function that is registered and runs the test under a timer.
    pub test_driver: String,
    /// The function that holds the body of the test.
    pub user_test: String,
    /// The function that returns what the test requires.
    pub requirements: String,
    /// The function that parses the options of the test.
    pub validate: String,
    /// The type that holds the options of the test.
    pub test_option: String,
}

/// The name of the type that holds the options of the test `test_name`.
pub open spec fn option_type_name_of(test_name: Seq<char>) -> Seq<char> {
    pascal_case(test_name + "TestOption"@)
}

/// The name of the type that holds the options of the test `test_name`:
/// the name of the test followed by `TestOption`, in PascalCase.
pub fn option_type_name(test_name: &str) -> (r: String)
    ensures
        r@ == option_type_name_of(test_name@),
{
    let plain = String::from_str(test_name).concat("TestOption");
    to_pascal_case(plain.as_str())
}

impl GeneratedNames {
    /// The names for the test `test_name` under `suffix`, where the name of
    /// the option type is `test_option`.
    pub fn with(test_name: &str, suffix: &str, test_option: String) -> (r: Self)
        ensures
            r.test_driver@ == test_name@ + "_"@ + suffix@,
            r.user_test@ == "ext_test_fn_"@ + suffix@,
            r.requirements@ == "requirements_"@ + suffix@,
            r.validate@ == "validate_subcommand_"@ + suffix@,
            r.test_option@ == test_option@,
    {
        GeneratedNames {
            test_driver: String::from_str(test_name).concat("_").concat(suffix),
            user_test: String::from_str("ext_test_fn_").concat(suffix),
            requirements: String::from_str("requirements_").concat(suffix),
            validate: String::from_str("validate_subcommand_").concat(suffix),
            test_option,
        }
    }

    /// Fresh names for the test `test_name`: under a random suffix of seven
    /// letters and digits.
    pub fn fresh(test_name: &str) -> (r: Self)
        ensures
            exists|suffix: Seq<char>|
                {
                    &&& suffix.len() == SUFFIX_LEN
                    &&& is_suffix(suffix)
                    &&& #[trigger] (test_name@ + "_"@ + suffix) == r.test_driver@
                    &&& r.user_test@ == "ext_test_fn_"@ + suffix
                    &&& r.requirements@ == "requirements_"@ + suffix
                    &&& r.validate@ == "validate_subcommand_"@ + suffix
                },
            r.test_option@ == option_type_name_of(test_name@),
    {
        let suffix = random_suffix(SUFFIX_LEN);
        let r = GeneratedNames::with(test_name, suffix.as_str(), option_type_name(test_name));
        assert(test_name@ + "_"@ + suffix@ == r.test_driver@);
        r
    }
}

/// Names generated under different suffixes differ, function by function:
/// two tests in one file do not clash.
pub proof fn lemma_suffixes_tell_names_apart(
    prefix: Seq<char>,
    first: Seq<char>,
    second: Seq<char>,
)
    requires
        first != second,
    ensures
        prefix + first != prefix + second,
{
    if prefix + first == prefix + second {
        assert((prefix + first).skip(prefix.len() as int) =~= first);
        assert((prefix + second).skip(prefix.len() as int) =~= second);
    }
}

} // verus!
