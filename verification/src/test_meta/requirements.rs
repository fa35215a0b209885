//! What a test requires of the cluster it runs against.

use vstd::prelude::*;
use vstd::string::StringExecFns;

verus! {

/// The fewest storage units a test asks for unless it says otherwise.
pub const DEFAULT_MIN_SPU: u16 = 1;

/// The seconds a test may run unless it says otherwise.
pub const DEFAULT_TIMEOUT_SECS: u64 = 3600;

/// The kind of cluster a test is restricted to.
#[derive(Debug, Clone, Copy, PartialEq, Eq, Structural)]
pub enum EnvironmentType {
    K8,
    Local,
}

/// What a test declares: the least cluster it needs, how long it may run,
/// and under which name it is listed. What is left out falls back to a
/// default when the test is run.
#[derive(Debug, Clone, PartialEq, Eq)]
pub struct TestRequirements {
    pub min_spu: Option<u16>,
    pub topic: Option<String>,
    /// Seconds.
    pub timeout: Option<u64>,
    pub cluster_type: Option<EnvironmentType>,
    pub test_name: Option<String>,
    /// Whether the body of the test runs as a future, with the connection
    /// to the cluster made before it starts.
    pub is_async: bool,
}

impl Default for TestRequirements {
    fn default() -> (r: Self)
        ensures
            r.min_spu is None,
            r.topic is None,
            r.timeout is None,
            r.cluster_type is None,
            r.test_name is None,
            !r.is_async,
    {
        TestRequirements {
            min_spu: None,
            topic: None,
            timeout: None,
            cluster_type: None,
            test_name: None,
            is_async: false,
        }
    }
}

impl TestRequirements {
    /// The fewest storage units the test needs.
    pub fn min_spu_or_default(&self) -> (n: u16)
        ensures
            n == match self.min_spu {
                Some(m) => m,
                None => DEFAULT_MIN_SPU,
            },
    {
        match self.min_spu {
            Some(m) => m,
            None => DEFAULT_MIN_SPU,
        }
    }

    /// The seconds the test may run.
    pub fn timeout_or_default(&self) -> (n: u64)
        ensures
            n == match self.timeout {
                Some(t) => t,
                None => DEFAULT_TIMEOUT_SECS,
            },
    {
        match self.timeout {
            Some(t) => t,
            None => DEFAULT_TIMEOUT_SECS,
        }
    }

    /// The name under which the test is listed: the name it declares, or
    /// else the name of its function.
    pub fn name_or(&self, function_name: &str) -> (name: String)
        ensures
            name@ == match self.test_name {
                Some(given) => given@,
                None => function_name@,
            },
    {
        match &self.test_name {
            Some(given) => given.clone(),
            None => function_name.to_owned(),
        }
    }

    /// Whether a cluster of `spu` storage units and of the kind `cluster`
    /// is enough for the test.
    pub fn is_met_by(&self, spu: u16, cluster: EnvironmentType) -> (b: bool)
        ensures
            b == ((self.min_spu matches Some(m) ==> m <= spu) && (self.cluster_type matches Some(
                c,
            ) ==> c == cluster)),
    {
        let enough = match self.min_spu {
            Some(m) => m <= spu,
            None => true,
        };
        let right_kind = match self.cluster_type {
            Some(c) => c == cluster,
            None => true,
        };
        enough && right_kind
    }
}


/// The mathematical model of `TestRequirements`.
pub struct TestRequirementsView {
    pub min_spu: Option<u16>,
    pub topic: Option<Seq<char>>,
    pub timeout: Option<u64>,
    pub cluster_type: Option<EnvironmentType>,
    pub test_name: Option<Seq<char>>,
    pub is_async: bool,
}

impl DeepView for TestRequirements {
    type V = TestRequirementsView;

    open spec fn deep_view(&self) -> TestRequirementsView {
        TestRequirementsView {
            min_spu: self.min_spu,
            topic: self.topic.deep_view(),
            timeout: self.timeout,
            cluster_type: self.cluster_type,
            test_name: self.test_name.deep_view(),
            is_async: self.is_async,
        }
    }
}

/// What stands behind one key where a test declares its requirements.
#[derive(Debug, Clone, PartialEq, Eq)]
pub enum AttributeValue {
    /// A number.
    Int(u64),
    /// A text.
    Text(String),
    /// A yes or no.
    Flag(bool),
}

/// The mathematical model of `AttributeValue`.
pub enum AttributeValueView {
    Int(u64),
    Text(Seq<char>),
    Flag(bool),
}

impl DeepView for AttributeValue {
    type V = AttributeValueView;

    open spec fn deep_view(&self) -> AttributeValueView {
        match self {
            AttributeValue::Int(n) => AttributeValueView::Int(*n),
            AttributeValue::Text(s) => AttributeValueView::Text(s@),
            AttributeValue::Flag(b) => AttributeValueView::Flag(*b),
        }
    }
}

/// Why a key could not be taken into the requirements.
#[derive(Debug, Clone, Copy, PartialEq, Eq, Structural)]
pub enum AttributeError {
    /// No requirement goes by this key.
    UnknownKey,
    /// The value is not of the sort that the key takes, or not one that it
    /// knows.
    WrongValue,
}

/// The kind of cluster that `text` names: `k8` and `kubernetes` name the
/// one, `local` the other.
pub open spec fn cluster_kind(text: Seq<char>) -> Option<EnvironmentType> {
    if text == "k8"@ || text == "kubernetes"@ {
        Some(EnvironmentType::K8)
    } else if text == "local"@ {
        Some(EnvironmentType::Local)
    } else {
        None
    }
}

/// The requirements `r` after `key` was set to `value`, or why it was not.
///
/// * `min_spu` takes a number of at most 16 bits;
/// * `topic_name` and `name` take a text;
/// * `timeout` takes a number of seconds, or a no for a test without one;
/// * `cluster_type` takes the name of a kind of cluster;
/// * `async` takes a yes or no.
pub open spec fn attribute_set(
    r: TestRequirementsView,
    key: Seq<char>,
    value: AttributeValueView,
) -> Result<TestRequirementsView, AttributeError> {
    if key == "min_spu"@ {
        match value {
            AttributeValueView::Int(n) if n <= u16::MAX => Ok(
                TestRequirementsView { min_spu: Some(n as u16), ..r },
            ),
            _ => Err(AttributeError::WrongValue),
        }
    } else if key == "topic_name"@ {
        match value {
            AttributeValueView::Text(s) => Ok(TestRequirementsView { topic: Some(s), ..r }),
            _ => Err(AttributeError::WrongValue),
        }
    } else if key == "timeout"@ {
        match value {
            AttributeValueView::Int(n) => Ok(TestRequirementsView { timeout: Some(n), ..r }),
            AttributeValueView::Flag(false) => Ok(TestRequirementsView { timeout: None, ..r }),
            _ => Err(AttributeError::WrongValue),
        }
    } else if key == "cluster_type"@ {
        match value {
            AttributeValueView::Text(s) => match cluster_kind(s) {
                Some(kind) => Ok(TestRequirementsView { cluster_type: Some(kind), ..r }),
                None => Err(AttributeError::WrongValue),
            },
            _ => Err(AttributeError::WrongValue),
        }
    } else if key == "name"@ {
        match value {
            AttributeValueView::Text(s) => Ok(TestRequirementsView { test_name: Some(s), ..r }),
            _ => Err(AttributeError::WrongValue),
        }
    } else if key == "async"@ {
        match value {
            AttributeValueView::Flag(b) => Ok(TestRequirementsView { is_async: b, ..r }),
            _ => Err(AttributeError::WrongValue),
        }
    } else {
        Err(AttributeError::UnknownKey)
    }
}

/// Whether `text` reads `word`.
fn reads(text: &String, word: &str) -> (b: bool)
    ensures
        b == (text@ == word@),
{
    *text == String::from_str(word)
}

/// The kind of cluster that `text` names.
pub fn parse_cluster_kind(text: &String) -> (r: Option<EnvironmentType>)
    ensures
        r == cluster_kind(text@),
{
    if reads(text, "k8") || reads(text, "kubernetes") {
        Some(EnvironmentType::K8)
    } else if reads(text, "local") {
        Some(EnvironmentType::Local)
    } else {
        None
    }
}

impl TestRequirements {
    /// Sets the requirement that goes by `key` to `value`. Where the key is
    /// unknown or the value does not fit it, nothing changes.
    pub fn set_attribute(&mut self, key: &str, value: AttributeValue) -> (r: Result<
        (),
        AttributeError,
    >)
        ensures
            match attribute_set(old(self).deep_view(), key@, value.deep_view()) {
                Ok(v) => r is Ok && final(self).deep_view() == v,
                Err(e) => r == Err::<(), AttributeError>(e) && *final(self) == *old(self),
            },
    {
        let key = String::from_str(key);
        if reads(&key, "min_spu") {
            match value {
                AttributeValue::Int(n) => {
                    if n <= u16::MAX as u64 {
                        self.min_spu = Some(n as u16);
                        Ok(())
                    } else {
                        Err(AttributeError::WrongValue)
                    }
                },
                _ => Err(AttributeError::WrongValue),
            }
        } else if reads(&key, "topic_name") {
            match value {
                AttributeValue::Text(s) => {
                    self.topic = Some(s);
                    Ok(())
                },
                _ => Err(AttributeError::WrongValue),
            }
        } else if reads(&key, "timeout") {
            match value {
                AttributeValue::Int(n) => {
                    self.timeout = Some(n);
                    Ok(())
                },
                AttributeValue::Flag(false) => {
                    self.timeout = None;
                    Ok(())
                },
                _ => Err(AttributeError::WrongValue),
            }
        } else if reads(&key, "cluster_type") {
            match value {
                AttributeValue::Text(s) => match parse_cluster_kind(&s) {
                    Some(kind) => {
                        self.cluster_type = Some(kind);
                        Ok(())
                    },
                    None => Err(AttributeError::WrongValue),
                },
                _ => Err(AttributeError::WrongValue),
            }
        } else if reads(&key, "name") {
            match value {
                AttributeValue::Text(s) => {
                    self.test_name = Some(s);
                    Ok(())
                },
                _ => Err(AttributeError::WrongValue),
            }
        } else if reads(&key, "async") {
            match value {
                AttributeValue::Flag(b) => {
                    self.is_async = b;
                    Ok(())
                },
                _ => Err(AttributeError::WrongValue),
            }
        } else {
            Err(AttributeError::UnknownKey)
        }
    }
}

} // verus!
