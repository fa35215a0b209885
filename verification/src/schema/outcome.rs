//! What becomes of a request to create something.
//!
//! Whether a request is valid against what the cluster holds is for the
//! control plane to find out. What follows from its finding is decided
//! here: what the client is told, and whether anything is stored. A dry run
//! is checked like any other request and told the same, and stores nothing.

use vstd::prelude::*;
use crate::schema::create::{
    AllCreatableSpec,
    AllCreatableSpecView,
    CreateRequest,
    CreateRequestView,
};
use crate::schema::status::{ErrorCode, Status, StatusView};

verus! {

/// What the control plane found when it checked a request against what the
/// cluster holds.
#[derive(Debug, Clone, PartialEq, Eq)]
pub enum Validation {
    /// The request can be carried out.
    Valid,
    /// The request cannot be carried out, for the reason given.
    Invalid { message: String },
}

impl DeepView for Validation {
    type V = Option<Seq<char>>;

    /// The reason for which the request is invalid, if it is.
    open spec fn deep_view(&self) -> Option<Seq<char>> {
        match self {
            Validation::Valid => None,
            Validation::Invalid { message } => Some(message@),
        }
    }
}

/// What the client is told about a request for `name` that was found
/// `objection`-able, or valid if there is no objection.
pub open spec fn status_of(name: Seq<char>, objection: Option<Seq<char>>) -> StatusView {
    StatusView {
        name,
        error_code: match objection {
            None => ErrorCode::NoError,
            Some(_) => ErrorCode::ValidationFailed,
        },
        error_message: objection,
    }
}

/// Whether what the request describes is stored: that is so where the
/// request is valid and is no dry run.
pub open spec fn is_stored(request: CreateRequestView, objection: Option<Seq<char>>) -> bool {
    objection is None && !request.dry_run
}

/// What the client is told about `request`, given what the control plane
/// found.
pub fn create_status(request: &CreateRequest, validation: Validation) -> (r: Status)
    ensures
        r.deep_view() == status_of(request.name@, validation.deep_view()),
{
    match validation {
        Validation::Valid => Status {
            name: request.name.clone(),
            error_code: ErrorCode::NoError,
            error_message: None,
        },
        Validation::Invalid { message } => Status {
            name: request.name.clone(),
            error_code: ErrorCode::ValidationFailed,
            error_message: Some(message),
        },
    }
}

/// A dry run is told what the same request would be told if it were none.
pub proof fn lemma_dry_run_is_told_the_same(
    request: CreateRequestView,
    objection: Option<Seq<char>>,
)
    ensures
        status_of(
            (CreateRequestView { dry_run: true, ..request }).name,
            objection,
        ) == status_of((CreateRequestView { dry_run: false, ..request }).name, objection),
{
}

/// A dry run stores nothing, whatever it asks for and however it fared.
pub proof fn lemma_dry_run_stores_nothing(request: CreateRequestView, objection: Option<Seq<char>>)
    requires
        request.dry_run,
    ensures
        !is_stored(request, objection),
{
}

/// What the cluster was asked to create and did: names with what they
/// stand for, in the order created.
pub struct Registry {
    objects: Vec<(String, AllCreatableSpec)>,
}

impl View for Registry {
    type V = Seq<(Seq<char>, AllCreatableSpecView)>;

    closed spec fn view(&self) -> Seq<(Seq<char>, AllCreatableSpecView)> {
        self.objects.deep_view()
    }
}

impl Registry {
    /// A registry that holds nothing.
    pub fn new() -> (r: Self)
        ensures
            r@.len() == 0,
    {
        Registry { objects: Vec::new() }
    }

    /// The number of things created.
    pub fn len(&self) -> (n: usize)
        ensures
            n == self@.len(),
    {
        self.objects.len()
    }

    /// Whether something was created under `name`.
    pub fn contains(&self, name: &String) -> (b: bool)
        ensures
            b == exists|i: int| 0 <= i < self@.len() && (#[trigger] self@[i]).0 == name@,
    {
        let mut i: usize = 0;
        while i < self.objects.len()
            invariant
                i <= self.objects.len(),
                forall|k: int| 0 <= k < i ==> (#[trigger] self@[k]).0 != name@,
            decreases self.objects.len() - i,
        {
            if self.objects[i].0 == *name {
                assert(self@[i as int].0 == name@);
                return true;
            }
            i = i + 1;
        }
        false
    }

    /// Settles `request`, given what the control plane found when it
    /// checked it: stores what the request describes where it is valid and
    /// no dry run, stores nothing otherwise, and says what the client is
    /// told.
    pub fn create(&mut self, request: CreateRequest, validation: Validation) -> (r: Status)
        ensures
            r.deep_view() == status_of(request.name@, validation.deep_view()),
            final(self)@ == if is_stored(request.deep_view(), validation.deep_view()) {
                old(self)@.push((request.name@, request.spec.deep_view()))
            } else {
                old(self)@
            },
            request.dry_run ==> final(self)@ == old(self)@,
    {
        let ghost before = self@;
        let store: bool = !request.dry_run && match &validation {
            Validation::Valid => true,
            Validation::Invalid { .. } => false,
        };
        let status = create_status(&request, validation);
        if store {
            self.objects.push((request.name, request.spec));
            assert(self@ =~= before.push((request.name@, request.spec.deep_view())));
        }
        status
    }
}

} // verus!
