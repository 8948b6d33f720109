//! Verdict bookkeeping for checking the layout-hint attributes of a type
//! declaration.
//!
//! A declaration may opt into foreign-compatible layout guarantees only
//! if at least one of its attributes carries the explicit
//! foreign-compatible hint and none carries a different layout hint.
//! Verdicts for single attributes are combined here; the diagnostics of
//! several incompatible findings are concatenated, not cut down to the
//! first one reported.
use vstd::prelude::*;

verus! {

#[verifier::external_type_specification]
#[verifier::external_body]
pub struct ExSynError(syn::Error);

#[verifier::external_type_specification]
#[verifier::external_body]
pub struct ExSpan(proc_macro2::Span);

/// The diagnostic messages an error value carries, in the order they
/// were collected.
pub uninterp spec fn error_diags(e: syn::Error) -> Seq<Seq<char>>;

/// Relies on `syn::Error::new`: the error built carries exactly the
/// given message, placed at the given source span.
#[verifier::external_body]
fn new_error(at: proc_macro2::Span, msg: &str) -> (e: syn::Error)
    ensures
        error_diags(e) == seq![msg@],
{
    syn::Error::new(at, msg)
}

/// Relies on `syn::Error::combine`: the second error's messages are
/// appended after the first's.
#[verifier::external_body]
fn combine_errors(first: syn::Error, second: syn::Error) -> (r: syn::Error)
    ensures
        error_diags(r) == error_diags(first) + error_diags(second),
{
    let mut first = first;
    first.combine(second);
    first
}

/// Relies on `proc_macro2::Span::call_site`: a span for the current
/// location, used where no better span is known.
#[verifier::external_body]
fn call_site() -> proc_macro2::Span {
    proc_macro2::Span::call_site()
}

/// The diagnostics a checking result carries: none when it is `Ok`, the
/// error's messages otherwise.
pub open spec fn spec_diags_of(x: Result<(), syn::Error>) -> Seq<Seq<char>> {
    match x {
        Ok(_) => Seq::<Seq<char>>::empty(),
        Err(e) => error_diags(e),
    }
}

/// Special `and` over checking results that keeps the diagnostics of
/// both sides when both are errors, the earlier ones first.
pub fn combine(earlier: Result<(), syn::Error>, later: Result<(), syn::Error>) -> (r: Result<
    (),
    syn::Error,
>)
    ensures
        r is Ok <==> (earlier is Ok && later is Ok),
        spec_diags_of(r) == spec_diags_of(earlier) + spec_diags_of(later),
        earlier is Ok ==> r == later,
        earlier is Err && later is Ok ==> r == earlier,
{
    proof {
        assert(Seq::<Seq<char>>::empty() + Seq::<Seq<char>>::empty() =~= Seq::<
            Seq<char>,
        >::empty());
        if earlier is Err && later is Ok {
            assert(error_diags(earlier->Err_0) + Seq::<Seq<char>>::empty() =~= error_diags(
                earlier->Err_0,
            ));
        }
        if earlier is Ok && later is Err {
            assert(Seq::<Seq<char>>::empty() + error_diags(later->Err_0) =~= error_diags(
                later->Err_0,
            ));
        }
    }
    match (earlier, later) {
        (Ok(()), result) => result,
        (error, Ok(())) => error,
        (Err(old), Err(new)) => Err(combine_errors(old, new)),
    }
}

/// Status of the search for the explicit foreign-compatible layout hint
/// among a declaration's attributes.
#[derive(Clone, Copy, Debug, PartialEq, Eq, Structural)]
pub enum Status {
    /// No attribute seen so far carries the hint.
    Missing,
    /// Some attribute carries the hint.
    Found,
}

impl Status {
    /// Combines two search statuses: `Found` wins.
    pub fn or(self, other: Status) -> (r: Status)
        ensures
            r is Found <==> (self is Found || other is Found),
    {
        match (self, other) {
            (Status::Missing, Status::Missing) => Status::Missing,
            _ => Status::Found,
        }
    }
}

/// The diagnostic attached to a layout hint other than the single
/// foreign-compatible one.
pub open spec fn spec_hint_message() -> Seq<char> {
    "only declarations with the single foreign-compatible layout hint can opt into layout guarantees, with no other layout hints"@
}

/// The exec counterpart of `spec_hint_message`.
fn hint_message() -> (r: &'static str)
    ensures
        r@ == spec_hint_message(),
{
    "only declarations with the single foreign-compatible layout hint can opt into layout guarantees, with no other layout hints"
}

/// The diagnostic reported when no foreign-compatible hint was found at
/// all.
pub open spec fn spec_missing_message() -> Seq<char> {
    "no foreign-compatible layout hint found on the declaration"@
}

/// The exec counterpart of `spec_missing_message`.
fn missing_message() -> (r: &'static str)
    ensures
        r@ == spec_missing_message(),
{
    "no foreign-compatible layout hint found on the declaration"
}

/// Result tracker for checking a declaration's layout-hint attributes:
/// whether the explicit foreign-compatible hint was found, and the
/// diagnostics of every incompatible hint seen so far.
#[derive(Debug)]
pub struct ReprResult {
    /// Current status of the foreign-compatible hint.
    repr_c: Status,
    /// Current result for the other layout-hint attributes.
    others: Result<(), syn::Error>,
}

impl ReprResult {
    /// Whether the foreign-compatible hint has been found.
    pub closed spec fn spec_found(&self) -> bool {
        self.repr_c is Found
    }

    /// Whether no incompatible hint has been seen.
    pub closed spec fn spec_others_ok(&self) -> bool {
        self.others is Ok
    }

    /// The diagnostics collected from incompatible hints, in order.
    pub closed spec fn spec_other_diags(&self) -> Seq<Seq<char>> {
        spec_diags_of(self.others)
    }

    /// Default result: no attributes checked yet.
    pub fn new() -> (r: Self)
        ensures
            !r.spec_found(),
            r.spec_others_ok(),
            r.spec_other_diags() == Seq::<Seq<char>>::empty(),
    {
        ReprResult { repr_c: Status::Missing, others: Ok(()) }
    }

    /// Result for an attribute that carries exactly the
    /// foreign-compatible hint.
    pub fn found() -> (r: Self)
        ensures
            r.spec_found(),
            r.spec_others_ok(),
            r.spec_other_diags() == Seq::<Seq<char>>::empty(),
    {
        ReprResult { repr_c: Status::Found, others: Ok(()) }
    }

    /// Result for a different, incompatible layout hint found at `at`.
    pub fn other(at: proc_macro2::Span) -> (r: Self)
        ensures
            !r.spec_found(),
            !r.spec_others_ok(),
            r.spec_other_diags() == seq![spec_hint_message()],
    {
        ReprResult { repr_c: Status::Missing, others: Err(Self::error(at)) }
    }

    /// The error reported when another layout hint appears at `at`.
    fn error(at: proc_macro2::Span) -> (e: syn::Error)
        ensures
            error_diags(e) == seq![spec_hint_message()],
    {
        new_error(at, hint_message())
    }

    /// Combines two results: tracks the diagnostics of both, in order,
    /// and whether either of them found the foreign-compatible hint.
    pub fn combine(self, other: Self) -> (r: Self)
        ensures
            r.spec_found() == (self.spec_found() || other.spec_found()),
            r.spec_others_ok() == (self.spec_others_ok() && other.spec_others_ok()),
            r.spec_other_diags() == self.spec_other_diags() + other.spec_other_diags(),
    {
        ReprResult {
            repr_c: self.repr_c.or(other.repr_c),
            others: combine(self.others, other.others),
        }
    }

    /// The final verdict for the declaration: compatible only if some
    /// attribute carried the foreign-compatible hint and none carried an
    /// incompatible one. On failure, the error lists a missing-hint
    /// diagnostic if the hint was absent, followed by every collected
    /// diagnostic, in order.
    pub fn into_result(self) -> (r: Result<(), syn::Error>)
        ensures
            r is Ok <==> (self.spec_found() && self.spec_others_ok()),
            spec_diags_of(r) == (if self.spec_found() {
                Seq::<Seq<char>>::empty()
            } else {
                seq![spec_missing_message()]
            }) + self.spec_other_diags(),
    {
        let status_result: Result<(), syn::Error> = match self.repr_c {
            Status::Found => Ok(()),
            Status::Missing => Err(new_error(call_site(), missing_message())),
        };
        combine(status_result, self.others)
    }
}

} // verus!
