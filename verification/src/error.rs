//! The errors of this library.
use vstd::prelude::*;

verus! {

/// `opendal::Error`, as the storage backends return it: it is handed through unchanged.
#[verifier::external_type_specification]
#[verifier::external_body]
pub struct ExBackendError(opendal::Error);

/// The kinds of errors that this library raises.
#[derive(Clone, Copy, Debug, PartialEq, Eq, Structural)]
pub enum ErrorKind {
    /// The operation is not one that the virtual file system offers.
    Unsupported,
    /// A setting cannot be used.
    ConfigInvalid,
    /// Nothing stands at the path.
    NotFound,
    /// The operation is not allowed.
    PermissionDenied,
    /// A limit has been reached.
    RateLimited,
}

/// An error that this library raised.
#[derive(Debug)]
pub struct Failure {
    /// What kind of error it is.
    pub kind: ErrorKind,
    /// What went wrong, in words.
    pub message: String,
    /// Details, each under a name.
    pub context: Vec<(String, String)>,
    /// The error below this one, in words.
    pub source: Option<String>,
}

/// What a [`Failure`] says.
#[verifier::ext_equal]
pub struct FailureView {
    /// What kind of error it is.
    pub kind: ErrorKind,
    /// What went wrong, in words.
    pub message: Seq<char>,
    /// Details, each under a name.
    pub context: Seq<(Seq<char>, Seq<char>)>,
    /// The error below this one, in words.
    pub source: Option<Seq<char>>,
}

/// The text pairs that a sequence of string pairs holds.
pub open spec fn pair_views(pairs: Seq<(String, String)>) -> Seq<(Seq<char>, Seq<char>)> {
    pairs.map_values(|p: (String, String)| (p.0@, p.1@))
}

/// The text that an optional string holds.
pub open spec fn option_view(text: Option<String>) -> Option<Seq<char>> {
    match text {
        Some(t) => Some(t@),
        None => None,
    }
}

impl View for Failure {
    type V = FailureView;

    open spec fn view(&self) -> FailureView {
        FailureView {
            kind: self.kind,
            message: self.message@,
            context: pair_views(self.context@),
            source: option_view(self.source),
        }
    }
}

impl FailureView {
    /// A failure of `kind` with a message and nothing else.
    pub open spec fn new(kind: ErrorKind, message: Seq<char>) -> FailureView {
        FailureView { kind, message, context: Seq::empty(), source: None }
    }

    /// The same failure with one detail more.
    pub open spec fn with_context(self, key: Seq<char>, value: Seq<char>) -> FailureView {
        FailureView { context: self.context.push((key, value)), ..self }
    }

    /// The same failure with the error below it.
    pub open spec fn set_source(self, source: Seq<char>) -> FailureView {
        FailureView { source: Some(source), ..self }
    }
}

impl Failure {
    /// A failure of `kind` with a message and nothing else.
    pub fn new(kind: ErrorKind, message: &str) -> (r: Failure)
        ensures
            r@ == FailureView::new(kind, message@),
    {
        let r = Failure { kind, message: message.to_owned(), context: Vec::new(), source: None };
        proof {
            assert(r@ =~= FailureView::new(kind, message@));
        }
        r
    }

    /// The same failure with one detail more.
    pub fn with_context(self, key: &str, value: &str) -> (r: Failure)
        ensures
            r@ == self@.with_context(key@, value@),
    {
        let mut r = self;
        r.context.push((key.to_owned(), value.to_owned()));
        proof {
            assert(r@ =~= self@.with_context(key@, value@));
        }
        r
    }

    /// The same failure with the error below it.
    pub fn set_source(self, source: &str) -> (r: Failure)
        ensures
            r@ == self@.set_source(source@),
    {
        let mut r = self;
        r.source = Some(source.to_owned());
        proof {
            assert(r@ =~= self@.set_source(source@));
        }
        r
    }
}

/// The result of reading a setting, its failure taken by what it says.
pub open spec fn read_view<T>(r: Result<T, Failure>) -> Result<T, FailureView> {
    match r {
        Ok(v) => Ok(v),
        Err(f) => Err(f@),
    }
}

/// An error of an operation on the virtual file system.
#[derive(Debug)]
pub enum VfsError {
    /// This library raised it.
    Raised(Failure),
    /// A storage backend returned it.
    Backend(opendal::Error),
}

/// What a [`VfsError`] says.
pub enum VfsErrorView {
    /// This library raised it.
    Raised(FailureView),
    /// A storage backend returned it.
    Backend(opendal::Error),
}

impl View for VfsError {
    type V = VfsErrorView;

    open spec fn view(&self) -> VfsErrorView {
        match *self {
            VfsError::Raised(f) => VfsErrorView::Raised(f@),
            VfsError::Backend(e) => VfsErrorView::Backend(e),
        }
    }
}

/// Whether `r` is the error that says `failure`.
pub open spec fn fails_with<T>(r: Result<T, VfsError>, failure: FailureView) -> bool {
    r matches Err(e) && e@ == VfsErrorView::Raised(failure)
}

/// What a failure says is what its fields hold, and nothing of it is lost.
pub proof fn law_failure_says_its_fields(f: Failure, i: int)
    ensures
        f@.kind == f.kind,
        f@.message == f.message@,
        f@.context.len() == f.context@.len(),
        0 <= i < f.context@.len() ==> f@.context[i].0 == f.context@[i].0@ && f@.context[i].1
            == f.context@[i].1@,
        f.source is None <==> f@.source is None,
        f.source is Some ==> f@.source->0 == f.source->0@,
{
}

/// A failure is made up of what was given to it: details are added behind the ones before, and
/// neither a detail nor a source changes anything else.
pub proof fn law_failure_is_made_up(
    kind: ErrorKind,
    message: Seq<char>,
    f: FailureView,
    key: Seq<char>,
    value: Seq<char>,
)
    ensures
        FailureView::new(kind, message).kind == kind,
        FailureView::new(kind, message).message == message,
        FailureView::new(kind, message).context.len() == 0,
        FailureView::new(kind, message).source is None,
        f.with_context(key, value).context == f.context.push((key, value)),
        f.with_context(key, value).kind == f.kind,
        f.with_context(key, value).message == f.message,
        f.with_context(key, value).source == f.source,
        f.set_source(value).source == Some(value),
        f.set_source(value).kind == f.kind,
        f.set_source(value).message == f.message,
        f.set_source(value).context == f.context,
{
}

/// An error is the one that is expected exactly if it was raised here and says so, and what a
/// backend returned is handed on as it is.
pub proof fn law_errors_are_told_apart<T>(
    r: Result<T, VfsError>,
    q: Result<T, Failure>,
    failure: FailureView,
    e: opendal::Error,
)
    ensures
        fails_with(r, failure) <==> (r is Err && r->Err_0 is Raised && r->Err_0->Raised_0@
            == failure),
        VfsError::Backend(e)@ == VfsErrorView::Backend(e),
        r is Err && r->Err_0 is Raised ==> r->Err_0@ == VfsErrorView::Raised(
            r->Err_0->Raised_0@,
        ),
        q is Ok <==> read_view(q) is Ok,
        q is Ok ==> read_view(q)->Ok_0 == q->Ok_0,
        q is Err ==> read_view(q)->Err_0 == q->Err_0@,
{
}

/// The texts of string pairs are those of each pair, in the same order.
pub proof fn law_pairs_keep_their_texts(pairs: Seq<(String, String)>, i: int)
    requires
        0 <= i < pairs.len(),
    ensures
        pair_views(pairs).len() == pairs.len(),
        pair_views(pairs)[i].0 == pairs[i].0@,
        pair_views(pairs)[i].1 == pairs[i].1@,
{
}

} // verus!
