//! The options of the test named `test_name`.

use vstd::prelude::*;

verus! {

/// The options of the test named `test_name`: it has none. The type is
/// found by its name, which follows from the name of the test.
#[derive(Debug, Clone, Copy, PartialEq, Eq, Structural)]
pub struct TestNameTestOption {}

impl TestNameTestOption {
    /// The name of the test that these options belong to.
    pub fn test_name() -> (r: &'static str)
        ensures
            r@ == "test_name"@,
    {
        "test_name"
    }
}

impl Default for TestNameTestOption {
    fn default() -> (r: Self)
        ensures
            r == (TestNameTestOption {  }),
    {
        TestNameTestOption {  }
    }
}

} // verus!
