//! The storage operators that the library builds, and the layers that it puts on them.
use vstd::prelude::*;

use crate::error::pair_views;

verus! {

/// `opendal::Operator`, as it is handed through.
#[verifier::external_type_specification]
#[verifier::external_body]
pub struct ExStorageOperator(opendal::Operator);

/// A layer on an operator.
#[derive(Clone, Copy, Debug, PartialEq, Eq, Structural)]
pub enum LayerSetting {
    /// Calls are repeated up to this many times, with jitter between them.
    Retry(usize),
    /// This many calls may be in progress at once.
    Concurrency(usize),
    /// This many bytes may pass in a second, and this many at once.
    Bandwidth(u32, u32),
}

/// The first argument of the call of `opendal::Operator::via_iter` that an operator comes from.
pub uninterp spec fn requested_scheme(op: opendal::Operator) -> Seq<char>;

/// The second argument of the call of `opendal::Operator::via_iter` that an operator comes from:
/// the pairs, in the order in which they were handed over.
pub uninterp spec fn requested_options(op: opendal::Operator) -> Seq<(Seq<char>, Seq<char>)>;

/// The first argument of the call of `opendal::Operator::via_iter` that an error comes from.
pub uninterp spec fn refused_scheme(e: opendal::Error) -> Seq<char>;

/// The second argument of the call of `opendal::Operator::via_iter` that an error comes from: the
/// pairs, in the order in which they were handed over.
pub uninterp spec fn refused_options(e: opendal::Error) -> Seq<(Seq<char>, Seq<char>)>;

/// The layers that were put on an operator after its service was built, the innermost first.
pub uninterp spec fn operator_layers(op: opendal::Operator) -> Seq<LayerSetting>;

/// Calls `opendal::Operator::via_iter`. Believed of it: an operator that it returns comes from
/// the call with these two arguments, and has none of the library's layers on it yet, and an
/// error that it returns comes from that call too.
///
/// Left unsaid is which service the operator talks to and with which settings: the call puts
/// the scheme and the keys into lower case, knows services by more than one name, and reads
/// settings out of a scheme that is a URI. Left unsaid is also whether it returns an operator,
/// and what an error says: that depends on the services that are registered and on the machine.
#[verifier::external_body]
pub(crate) fn build_operator(scheme: &str, options: Vec<(String, String)>) -> (r: Result<
    opendal::Operator,
    opendal::Error,
>)
    ensures
        r matches Ok(op) ==> requested_scheme(op) == scheme@,
        r matches Ok(op) ==> requested_options(op) == pair_views(options@),
        r matches Ok(op) ==> operator_layers(op) == Seq::<LayerSetting>::empty(),
        r matches Err(e) ==> refused_scheme(e) == scheme@,
        r matches Err(e) ==> refused_options(e) == pair_views(options@),
{
    opendal::Operator::via_iter(scheme, options)
}

/// Calls `opendal::Operator::layer` with `opendal::layers::RetryLayer`. Believed of it: the
/// result is the operator with that layer, of up to `times` retries with jitter, around it.
#[verifier::external_body]
pub(crate) fn layer_retry(op: opendal::Operator, times: usize) -> (r: opendal::Operator)
    ensures
        requested_scheme(r) == requested_scheme(op),
        requested_options(r) == requested_options(op),
        operator_layers(r) == operator_layers(op).push(LayerSetting::Retry(times)),
{
    op.layer(opendal::layers::RetryLayer::new().with_max_times(times).with_jitter())
}

/// Calls `opendal::Operator::layer` with `opendal::layers::ConcurrentLimitLayer`. Believed of
/// it: the result is the operator with that layer, of `permits` permits, around it.
#[verifier::external_body]
pub(crate) fn layer_concurrency(op: opendal::Operator, permits: usize) -> (r: opendal::Operator)
    ensures
        requested_scheme(r) == requested_scheme(op),
        requested_options(r) == requested_options(op),
        operator_layers(r) == operator_layers(op).push(LayerSetting::Concurrency(permits)),
{
    op.layer(opendal::layers::ConcurrentLimitLayer::new(permits))
}

/// Calls `opendal::Operator::layer` with `opendal::layers::ThrottleLayer`, which panics on a
/// rate of zero. Believed of it: the result is the operator with that layer around it.
#[verifier::external_body]
pub(crate) fn layer_throttle(op: opendal::Operator, bandwidth: u32, burst: u32) -> (r:
    opendal::Operator)
    requires
        bandwidth > 0,
        burst > 0,
    ensures
        requested_scheme(r) == requested_scheme(op),
        requested_options(r) == requested_options(op),
        operator_layers(r) == operator_layers(op).push(LayerSetting::Bandwidth(bandwidth, burst)),
{
    op.layer(opendal::layers::ThrottleLayer::new(bandwidth, burst))
}

} // verus!
