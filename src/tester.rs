//! Outcomes of single trials, and the runner that repeats trials and shrinks
//! the first failing input it meets.
use vstd::prelude::*;

use crate::arbitrary::Arbitrary;
use crate::gen::Gen;
use crate::text::string_from_chars;

verus! {

/// Whether a trial passed, failed or was discarded.
#[derive(Clone, Copy, Debug, PartialEq, Eq, Structural)]
pub enum Status {
    Pass,
    Fail,
    Discard,
}

/// The outcome of one trial: its status, the debug representations of the
/// inputs it ran on, and the message of the runtime error it met, if any.
#[derive(Clone, Debug)]
pub struct TestResult {
    status: Status,
    arguments: Vec<String>,
    err: Option<String>,
}

/// Relies on std's `String::push_str`: `t` appended to `s`.
#[verifier::external_body]
fn append(s: &mut String, t: &str)
    ensures
        final(s)@ == old(s)@ + t@,
{
    s.push_str(t)
}

/// The strings of `args`, separated by a comma and a space.
pub open spec fn joined(args: Seq<Seq<char>>) -> Seq<char>
    decreases args.len(),
{
    if args.len() == 0 {
        seq![]
    } else if args.len() == 1 {
        args[0]
    } else {
        joined(args.drop_last()) + ", "@ + args.last()
    }
}

/// The message that reports a failure with the given arguments and error.
pub open spec fn failure_message(args: Seq<Seq<char>>, err: Option<Seq<char>>) -> Seq<char> {
    match err {
        None => "[quickcheck] TEST FAILED. Arguments: ("@ + joined(args) + ")"@,
        Some(e) => "[quickcheck] TEST FAILED (runtime error). Arguments: ("@ + joined(args)
            + ")\nError: "@ + e,
    }
}

/// The views of the strings in `v`.
pub open spec fn string_views(v: Seq<String>) -> Seq<Seq<char>> {
    v.map_values(|s: String| s@)
}

impl TestResult {
    /// The status of this outcome.
    pub closed spec fn status_spec(&self) -> Status {
        self.status
    }

    /// The debug representations of the inputs.
    pub closed spec fn arguments_spec(&self) -> Seq<Seq<char>> {
        string_views(self.arguments@)
    }

    /// The runtime error message, if any.
    pub closed spec fn err_spec(&self) -> Option<Seq<char>> {
        match self.err {
            Some(e) => Some(e@),
            None => None,
        }
    }

    /// A passing outcome.
    pub fn passed() -> (r: TestResult)
        ensures
            r.status_spec() == Status::Pass,
            r.arguments_spec().len() == 0,
            r.err_spec() is None,
    {
        TestResult::from_bool(true)
    }

    /// A failing outcome.
    pub fn failed() -> (r: TestResult)
        ensures
            r.status_spec() == Status::Fail,
            r.arguments_spec().len() == 0,
            r.err_spec() is None,
    {
        TestResult::from_bool(false)
    }

    /// A failing outcome caused by a runtime error with message `msg`.
    pub fn error(msg: &str) -> (r: TestResult)
        ensures
            r.status_spec() == Status::Fail,
            r.arguments_spec().len() == 0,
            r.err_spec() == Some(msg@),
    {
        let mut r = TestResult::from_bool(false);
        r.err = Some(msg.to_owned());
        r
    }

    /// An outcome that tells the runner to ignore this trial.
    pub fn discard() -> (r: TestResult)
        ensures
            r.status_spec() == Status::Discard,
            r.arguments_spec().len() == 0,
            r.err_spec() is None,
    {
        TestResult { status: Status::Discard, arguments: Vec::new(), err: None }
    }

    /// A passing outcome if `b` holds, a failing one otherwise.
    pub fn from_bool(b: bool) -> (r: TestResult)
        ensures
            r.status_spec() == (if b {
                Status::Pass
            } else {
                Status::Fail
            }),
            r.arguments_spec().len() == 0,
            r.err_spec() is None,
    {
        let r = TestResult {
            status: if b {
                Status::Pass
            } else {
                Status::Fail
            },
            arguments: Vec::new(),
            err: None,
        };
        assert(r.arguments_spec() =~= Seq::<Seq<char>>::empty());
        r
    }

    /// Whether this outcome is a failure.
    pub fn is_failure(&self) -> (r: bool)
        ensures
            r == (self.status_spec() == Status::Fail),
    {
        match self.status {
            Status::Fail => true,
            Status::Pass | Status::Discard => false,
        }
    }

    /// Whether this outcome is a failure caused by a runtime error.
    pub fn is_error(&self) -> (r: bool)
        ensures
            r == (self.status_spec() == Status::Fail && self.err_spec() is Some),
    {
        self.is_failure() && self.err.is_some()
    }

    /// The debug representations of the inputs this outcome was found on.
    pub fn arguments(&self) -> (r: &Vec<String>)
        ensures
            string_views(r@) == self.arguments_spec(),
    {
        &self.arguments
    }

    /// The message that reports this outcome as a failure.
    pub fn failed_msg(&self) -> (r: String)
        ensures
            r@ == failure_message(self.arguments_spec(), self.err_spec()),
    {
        let mut r = String::new();
        match &self.err {
            None => append(&mut r, "[quickcheck] TEST FAILED. Arguments: ("),
            Some(_) => append(&mut r, "[quickcheck] TEST FAILED (runtime error). Arguments: ("),
        }
        let ghost head = r@;
        let ghost args = self.arguments_spec();
        let mut i: usize = 0;
        while i < self.arguments.len()
            invariant
                i <= self.arguments@.len(),
                args == self.arguments_spec(),
                args.len() == self.arguments@.len(),
                r@ == head + joined(args.subrange(0, i as int)),
            decreases self.arguments@.len() - i,
        {
            let ghost before = r@;
            if i > 0 {
                append(&mut r, ", ");
            }
            append(&mut r, self.arguments[i].as_str());
            proof {
                let sub = args.subrange(0, i + 1);
                assert(sub.drop_last() =~= args.subrange(0, i as int));
                assert(sub.last() == self.arguments@[i as int]@);
                if i == 0 {
                    assert(sub.len() == 1);
                    assert(joined(args.subrange(0, 0)) =~= Seq::<char>::empty());
                    assert(r@ =~= head + joined(sub));
                } else {
                    assert(r@ =~= head + joined(sub));
                }
            }
            i += 1;
        }
        assert(args.subrange(0, i as int) =~= args);
        match &self.err {
            None => append(&mut r, ")"),
            Some(e) => {
                append(&mut r, ")\nError: ");
                append(&mut r, e.as_str());
            },
        }
        r
    }

    /// An outcome with the same status and error as this one, and no
    /// arguments.
    pub(crate) fn bare_copy(&self) -> (r: TestResult)
        ensures
            r.status_spec() == self.status_spec(),
            r.arguments_spec().len() == 0,
            r.err_spec() == self.err_spec(),
    {
        let err = match &self.err {
            Some(e) => Some(e.clone()),
            None => None,
        };
        let r = TestResult { status: self.status, arguments: Vec::new(), err };
        assert(r.arguments_spec() =~= Seq::<Seq<char>>::empty());
        r
    }
}

/// Something that a trial can turn into an outcome.
pub trait Testable {
    /// The status of the outcome.
    spec fn outcome(&self) -> Status;

    /// Whether the outcome carries a runtime error message.
    spec fn outcome_errs(&self) -> bool;

    /// The runtime error message of the outcome, where it can be stated
    /// (the debug text of an error value cannot).
    spec fn outcome_message(&self) -> Option<Seq<char>>;

    /// The outcome of this value, with no arguments recorded yet.
    fn result(&self, g: &mut Gen) -> (r: TestResult)
        ensures
            r.status_spec() == self.outcome(),
            (r.err_spec() is Some) == self.outcome_errs(),
            self.outcome_message() is Some ==> r.err_spec() == self.outcome_message(),
            r.arguments_spec().len() == 0,
            final(g).size_spec() == old(g).size_spec(),
    ;
}

impl Testable for bool {
    open spec fn outcome(&self) -> Status {
        if *self {
            Status::Pass
        } else {
            Status::Fail
        }
    }

    open spec fn outcome_errs(&self) -> bool {
        false
    }

    open spec fn outcome_message(&self) -> Option<Seq<char>> {
        None
    }

    fn result(&self, g: &mut Gen) -> (r: TestResult) {
        TestResult::from_bool(*self)
    }
}

impl Testable for () {
    open spec fn outcome(&self) -> Status {
        Status::Pass
    }

    open spec fn outcome_errs(&self) -> bool {
        false
    }

    open spec fn outcome_message(&self) -> Option<Seq<char>> {
        None
    }

    fn result(&self, g: &mut Gen) -> (r: TestResult) {
        TestResult::passed()
    }
}

impl Testable for TestResult {
    open spec fn outcome(&self) -> Status {
        self.status_spec()
    }

    open spec fn outcome_errs(&self) -> bool {
        self.err_spec() is Some
    }

    open spec fn outcome_message(&self) -> Option<Seq<char>> {
        self.err_spec()
    }

    fn result(&self, g: &mut Gen) -> (r: TestResult) {
        self.bare_copy()
    }
}

/// Relies on std's `Debug` formatting (`{:?}`) of `x`.
#[verifier::external_body]
pub(crate) fn debug_repr<T: std::fmt::Debug>(x: &T) -> String {
    format!("{:?}", x)
}

impl<T: Testable, E: std::fmt::Debug> Testable for Result<T, E> {
    open spec fn outcome(&self) -> Status {
        match self {
            Ok(t) => t.outcome(),
            Err(_) => Status::Fail,
        }
    }

    open spec fn outcome_errs(&self) -> bool {
        match self {
            Ok(t) => t.outcome_errs(),
            Err(_) => true,
        }
    }

    open spec fn outcome_message(&self) -> Option<Seq<char>> {
        match self {
            Ok(t) => t.outcome_message(),
            Err(_) => None,
        }
    }

    fn result(&self, g: &mut Gen) -> (r: TestResult) {
        match self {
            Ok(t) => t.result(g),
            Err(e) => {
                let msg = debug_repr(e);
                TestResult::error(msg.as_str())
            },
        }
    }
}

/// A tuple of property inputs whose debug representations can be listed,
/// one per input.
pub trait Arguments: Arbitrary {
    /// The number of inputs.
    spec fn arity() -> nat;

    /// The debug representation of each input, in order.
    fn describe(&self) -> (r: Vec<String>)
        ensures
            r@.len() == Self::arity(),
    ;
}

/// Every outcome of `f` has status `s`.
pub open spec fn always<A, T: Testable, F: Fn(A) -> T>(f: F, s: Status) -> bool {
    forall|a: A, t: T| #[trigger] f.ensures((a,), t) ==> t.outcome() == s
}

/// Some call of `f` has an outcome of status `s`.
pub open spec fn sometimes<A, T: Testable, F: Fn(A) -> T>(f: F, s: Status) -> bool {
    exists|a: A, t: T| #[trigger] f.ensures((a,), t) && t.outcome() == s
}

/// Some call of `f` on an input with model `m` gave an outcome of status
/// `s`, which carried a runtime error exactly when `e` holds.
pub open spec fn observed<A: Arbitrary, T: Testable, F: Fn(A) -> T>(
    f: F,
    m: A::Model,
    s: Status,
    e: bool,
) -> bool {
    exists|x: A, t: T|
        x.model() == m && #[trigger] f.ensures((x,), t) && t.outcome() == s && t.outcome_errs()
            == e
}

/// Some call of `f` on an input with model `m` did not fail.
pub open spec fn holds_on<A: Arbitrary, T: Testable, F: Fn(A) -> T>(f: F, m: A::Model) -> bool {
    exists|x: A, t: T| x.model() == m && #[trigger] f.ensures((x,), t) && t.outcome() != Status::Fail
}

/// Every shrink candidate of `m` was tried and did not fail.
pub open spec fn locally_minimal<A: Arbitrary, T: Testable, F: Fn(A) -> T>(
    f: F,
    m: A::Model,
) -> bool {
    forall|i: int|
        0 <= i < A::shrink_spec(m).len() ==> holds_on::<A, T, F>(f, #[trigger] A::shrink_spec(m)[i])
}

/// `r` reports a failure of `f`, with one argument per input, found on an
/// input none of whose shrink candidates fails, and carrying a runtime
/// error exactly when that failure did.
pub open spec fn minimal_failure<A: Arguments, T: Testable, F: Fn(A) -> T>(
    f: F,
    r: TestResult,
) -> bool {
    &&& r.status_spec() == Status::Fail
    &&& r.arguments_spec().len() == A::arity()
    &&& exists|m: A::Model|
        #[trigger] observed::<A, T, F>(f, m, Status::Fail, r.err_spec() is Some)
            && locally_minimal::<A, T, F>(f, m)
}

/// Some call of `f` on an input with model `m` failed.
pub open spec fn fails_on<A: Arbitrary, T: Testable, F: Fn(A) -> T>(f: F, m: A::Model) -> bool {
    exists|x: A, t: T| x.model() == m && #[trigger] f.ensures((x,), t) && t.outcome() == Status::Fail
}

/// `next` is the first shrink candidate of `m` that was seen to fail: every
/// candidate before it was tried and did not fail.
pub open spec fn greedy_step<A: Arbitrary, T: Testable, F: Fn(A) -> T>(
    f: F,
    m: A::Model,
    next: A::Model,
) -> bool {
    exists|k: int|
        0 <= k < A::shrink_spec(m).len() && #[trigger] A::shrink_spec(m)[k] == next && fails_on::<
            A,
            T,
            F,
        >(f, next) && forall|i: int|
            0 <= i < k ==> holds_on::<A, T, F>(f, #[trigger] A::shrink_spec(m)[i])
}

/// `path` is a depth-first greedy descent: each model after the first is the
/// first failing shrink candidate of the one before it.
pub open spec fn greedy_path<A: Arbitrary, T: Testable, F: Fn(A) -> T>(
    f: F,
    path: Seq<A::Model>,
) -> bool {
    &&& path.len() >= 1
    &&& forall|j: int|
        0 <= j < path.len() - 1 ==> greedy_step::<A, T, F>(f, #[trigger] path[j], path[j + 1])
}

/// An observed outcome is an outcome of some call.
proof fn lemma_observed_sometimes<A: Arbitrary, T: Testable, F: Fn(A) -> T>(
    f: F,
    m: A::Model,
    s: Status,
    e: bool,
)
    requires
        observed::<A, T, F>(f, m, s, e),
    ensures
        sometimes(f, s),
        s != Status::Fail ==> holds_on::<A, T, F>(f, m),
{
    let (x, t) = choose|x: A, t: T|
        x.model() == m && #[trigger] f.ensures((x,), t) && t.outcome() == s && t.outcome_errs()
            == e;
    assert(f.ensures((x,), t));
}

/// Runs `f` on a copy of `a`; a failing outcome records the inputs, other
/// outcomes record none.
fn trial<A: Arguments, T: Testable, F: Fn(A) -> T>(g: &mut Gen, f: &F, a: &A) -> (r: TestResult)
    requires
        forall|x: A| f.requires((x,)),
    ensures
        final(g).size_spec() == old(g).size_spec(),
        observed::<A, T, F>(*f, a.model(), r.status_spec(), r.err_spec() is Some),
        r.status_spec() == Status::Fail ==> r.arguments_spec().len() == A::arity(),
        r.status_spec() != Status::Fail ==> r.arguments_spec().len() == 0,
{
    let d = a.duplicate();
    let ghost input = d;
    let t = f(d);
    let mut r = t.result(g);
    assert(f.ensures((input,), t));
    if r.is_failure() {
        r.arguments = a.describe();
    }
    r
}

/// Searches the shrink candidates of the failing input `a`, depth first, for
/// a smaller input that still fails: the first candidate that fails is
/// shrunk in turn before any of its siblings is tried. Returns the outcome
/// of the last failing input found, or `None` if no candidate fails, with
/// the path of models the search went down, from `a` to that input.
fn shrink_failure<A: Arguments, T: Testable, F: Fn(A) -> T>(g: &mut Gen, f: &F, a: A) -> (r: (
    Option<TestResult>,
    Ghost<Seq<A::Model>>,
))
    requires
        forall|x: A| f.requires((x,)),
    ensures
        final(g).size_spec() == old(g).size_spec(),
        r.0 is None ==> locally_minimal::<A, T, F>(*f, a.model()),
        r.0 is Some ==> minimal_failure::<A, T, F>(*f, r.0->0),
        r.0 is Some ==> {
            let path = r.1@;
            &&& greedy_path::<A, T, F>(*f, path)
            &&& path.len() >= 2
            &&& path[0] == a.model()
            &&& observed::<A, T, F>(*f, path.last(), Status::Fail, r.0->0.err_spec() is Some)
            &&& locally_minimal::<A, T, F>(*f, path.last())
        },
    decreases A::weight(a.model()),
{
    let cands = a.shrink();
    let ghost spec = A::shrink_spec(a.model());
    proof {
        A::lemma_shrink_lighter(a.model());
    }
    let mut k: usize = 0;
    while k < cands.len()
        invariant
            k <= cands@.len(),
            forall|x: A| f.requires((x,)),
            g.size_spec() == old(g).size_spec(),
            spec == A::shrink_spec(a.model()),
            cands@.map_values(|x: A| x.model()) == spec,
            forall|i: int|
                0 <= i < spec.len() ==> #[trigger] A::weight(spec[i]) < A::weight(a.model()),
            forall|i: int| 0 <= i < k ==> holds_on::<A, T, F>(*f, #[trigger] spec[i]),
        decreases cands@.len() - k,
    {
        let r_new = trial(g, f, &cands[k]);
        assert(cands@[k as int].model() == spec[k as int]);
        if r_new.is_failure() {
            let t = cands[k].duplicate();
            let (shrunk, sub) = shrink_failure(g, f, t);
            proof {
                let (x, tt) = choose|x: A, tt: T|
                    x.model() == spec[k as int] && #[trigger] f.ensures((x,), tt) && tt.outcome()
                        == Status::Fail && tt.outcome_errs() == (r_new.err_spec() is Some);
                assert(f.ensures((x,), tt));
                assert(fails_on::<A, T, F>(*f, spec[k as int]));
                assert(greedy_step::<A, T, F>(*f, a.model(), spec[k as int]));
            }
            match shrunk {
                Some(s) => {
                    let ghost path = seq![a.model()] + sub@;
                    proof {
                        assert forall|j: int| 0 <= j < path.len() - 1 implies greedy_step::<
                            A,
                            T,
                            F,
                        >(*f, #[trigger] path[j], path[j + 1]) by {
                            if j > 0 {
                                assert(path[j] == sub@[j - 1]);
                                assert(path[j + 1] == sub@[j]);
                            }
                        }
                        assert(path.last() == sub@.last());
                    }
                    return (Some(s), Ghost(path));
                },
                None => {
                    let ghost path = seq![a.model(), spec[k as int]];
                    assert(observed::<A, T, F>(
                        *f,
                        spec[k as int],
                        Status::Fail,
                        r_new.err_spec() is Some,
                    ));
                    assert(greedy_path::<A, T, F>(*f, path));
                    return (Some(r_new), Ghost(path));
                },
            }
        }
        proof {
            lemma_observed_sometimes::<A, T, F>(
                *f,
                spec[k as int],
                r_new.status_spec(),
                r_new.err_spec() is Some,
            );
        }
        k += 1;
    }
    assert(forall|i: int| 0 <= i < spec.len() ==> holds_on::<A, T, F>(*f, #[trigger] spec[i]));
    let ghost path = seq![a.model()];
    (None, Ghost(path))
}

/// One trial on a freshly drawn input. On failure, the outcome of the last
/// failing input of a depth-first greedy descent through the shrink
/// candidates, starting at the drawn input; no shrink candidate of that last
/// input fails. On a pass or a discard, that outcome with no arguments.
pub fn run_property<A: Arguments, T: Testable, F: Fn(A) -> T>(g: &mut Gen, f: &F) -> (r: TestResult)
    requires
        forall|x: A| f.requires((x,)),
    ensures
        final(g).size_spec() == old(g).size_spec(),
        sometimes(*f, r.status_spec()),
        r.status_spec() == Status::Fail ==> minimal_failure::<A, T, F>(*f, r),
        r.status_spec() == Status::Fail ==> exists|path: Seq<A::Model>|
            #[trigger] greedy_path::<A, T, F>(*f, path) && fails_on::<A, T, F>(*f, path[0])
                && observed::<A, T, F>(*f, path.last(), Status::Fail, r.err_spec() is Some)
                && locally_minimal::<A, T, F>(*f, path.last()),
        r.status_spec() != Status::Fail ==> r.arguments_spec().len() == 0,
{
    let a = A::arbitrary(g);
    let r = trial(g, f, &a);
    proof {
        lemma_observed_sometimes::<A, T, F>(*f, a.model(), r.status_spec(), r.err_spec() is Some);
    }
    if r.is_failure() {
        proof {
            let (x, tt) = choose|x: A, tt: T|
                x.model() == a.model() && #[trigger] f.ensures((x,), tt) && tt.outcome()
                    == Status::Fail && tt.outcome_errs() == (r.err_spec() is Some);
            assert(f.ensures((x,), tt));
            assert(fails_on::<A, T, F>(*f, a.model()));
        }
        let (shrunk, path) = shrink_failure(g, f, a);
        match shrunk {
            Some(s) => {
                proof {
                    let m = choose|m: A::Model|
                        #[trigger] observed::<A, T, F>(*f, m, Status::Fail, s.err_spec() is Some)
                            && locally_minimal::<A, T, F>(*f, m);
                    lemma_observed_sometimes::<A, T, F>(*f, m, Status::Fail, s.err_spec() is Some);
                    assert(greedy_path::<A, T, F>(*f, path@));
                }
                s
            },
            None => {
                proof {
                    let p = seq![a.model()];
                    assert(greedy_path::<A, T, F>(*f, p));
                }
                r
            },
        }
    } else {
        r
    }
}

impl Arguments for () {
    open spec fn arity() -> nat {
        0
    }

    fn describe(&self) -> (r: Vec<String>) {
        Vec::new()
    }
}

impl<A: Arbitrary + std::fmt::Debug> Arguments for (A,) {
    open spec fn arity() -> nat {
        1
    }

    fn describe(&self) -> (r: Vec<String>) {
        let mut r: Vec<String> = Vec::new();
        r.push(debug_repr(&self.0));
        r
    }
}

impl<A: Arbitrary + std::fmt::Debug, B: Arbitrary + std::fmt::Debug> Arguments for (A, B) {
    open spec fn arity() -> nat {
        2
    }

    fn describe(&self) -> (r: Vec<String>) {
        let mut r: Vec<String> = Vec::new();
        r.push(debug_repr(&self.0));
        r.push(debug_repr(&self.1));
        r
    }
}

impl<A: Arbitrary + std::fmt::Debug, B: Arbitrary + std::fmt::Debug, C: Arbitrary + std::fmt::Debug> Arguments for (A, B, C) {
    open spec fn arity() -> nat {
        3
    }

    fn describe(&self) -> (r: Vec<String>) {
        let mut r: Vec<String> = Vec::new();
        r.push(debug_repr(&self.0));
        r.push(debug_repr(&self.1));
        r.push(debug_repr(&self.2));
        r
    }
}

impl<A: Arbitrary + std::fmt::Debug, B: Arbitrary + std::fmt::Debug, C: Arbitrary + std::fmt::Debug, D: Arbitrary + std::fmt::Debug> Arguments for (A, B, C, D) {
    open spec fn arity() -> nat {
        4
    }

    fn describe(&self) -> (r: Vec<String>) {
        let mut r: Vec<String> = Vec::new();
        r.push(debug_repr(&self.0));
        r.push(debug_repr(&self.1));
        r.push(debug_repr(&self.2));
        r.push(debug_repr(&self.3));
        r
    }
}

impl<A: Arbitrary + std::fmt::Debug, B: Arbitrary + std::fmt::Debug, C: Arbitrary + std::fmt::Debug, D: Arbitrary + std::fmt::Debug, E: Arbitrary + std::fmt::Debug> Arguments for (A, B, C, D, E) {
    open spec fn arity() -> nat {
        5
    }

    fn describe(&self) -> (r: Vec<String>) {
        let mut r: Vec<String> = Vec::new();
        r.push(debug_repr(&self.0));
        r.push(debug_repr(&self.1));
        r.push(debug_repr(&self.2));
        r.push(debug_repr(&self.3));
        r.push(debug_repr(&self.4));
        r
    }
}

impl<A: Arbitrary + std::fmt::Debug, B: Arbitrary + std::fmt::Debug, C: Arbitrary + std::fmt::Debug, D: Arbitrary + std::fmt::Debug, E: Arbitrary + std::fmt::Debug, F: Arbitrary + std::fmt::Debug> Arguments for (A, B, C, D, E, F) {
    open spec fn arity() -> nat {
        6
    }

    fn describe(&self) -> (r: Vec<String>) {
        let mut r: Vec<String> = Vec::new();
        r.push(debug_repr(&self.0));
        r.push(debug_repr(&self.1));
        r.push(debug_repr(&self.2));
        r.push(debug_repr(&self.3));
        r.push(debug_repr(&self.4));
        r.push(debug_repr(&self.5));
        r
    }
}

impl<A: Arbitrary + std::fmt::Debug, B: Arbitrary + std::fmt::Debug, C: Arbitrary + std::fmt::Debug, D: Arbitrary + std::fmt::Debug, E: Arbitrary + std::fmt::Debug, F: Arbitrary + std::fmt::Debug, G: Arbitrary + std::fmt::Debug> Arguments for (A, B, C, D, E, F, G) {
    open spec fn arity() -> nat {
        7
    }

    fn describe(&self) -> (r: Vec<String>) {
        let mut r: Vec<String> = Vec::new();
        r.push(debug_repr(&self.0));
        r.push(debug_repr(&self.1));
        r.push(debug_repr(&self.2));
        r.push(debug_repr(&self.3));
        r.push(debug_repr(&self.4));
        r.push(debug_repr(&self.5));
        r.push(debug_repr(&self.6));
        r
    }
}

impl<A: Arbitrary + std::fmt::Debug, B: Arbitrary + std::fmt::Debug, C: Arbitrary + std::fmt::Debug, D: Arbitrary + std::fmt::Debug, E: Arbitrary + std::fmt::Debug, F: Arbitrary + std::fmt::Debug, G: Arbitrary + std::fmt::Debug, H: Arbitrary + std::fmt::Debug> Arguments for (A, B, C, D, E, F, G, H) {
    open spec fn arity() -> nat {
        8
    }

    fn describe(&self) -> (r: Vec<String>) {
        let mut r: Vec<String> = Vec::new();
        r.push(debug_repr(&self.0));
        r.push(debug_repr(&self.1));
        r.push(debug_repr(&self.2));
        r.push(debug_repr(&self.3));
        r.push(debug_repr(&self.4));
        r.push(debug_repr(&self.5));
        r.push(debug_repr(&self.6));
        r.push(debug_repr(&self.7));
        r
    }
}


/// The digit characters, in order of value.
pub open spec fn digit(d: int) -> char {
    seq!['0', '1', '2', '3', '4', '5', '6', '7', '8', '9'][d]
}

/// The decimal representation of `n`.
pub open spec fn decimal(n: nat) -> Seq<char>
    decreases n,
{
    if n < 10 {
        seq![digit(n as int)]
    } else {
        decimal(n / 10).push(digit((n % 10) as int))
    }
}

/// The digit character of `d`.
fn digit_char(d: u64) -> (r: char)
    requires
        d < 10,
    ensures
        r == digit(d as int),
{
    let digits: [char; 10] = ['0', '1', '2', '3', '4', '5', '6', '7', '8', '9'];
    assert(digits@ =~= seq!['0', '1', '2', '3', '4', '5', '6', '7', '8', '9']);
    digits[d as usize]
}

/// The decimal representation of `n`.
fn decimal_string(n: u64) -> (r: String)
    ensures
        r@ == decimal(n as nat),
{
    let mut m = n;
    let mut tail: Vec<char> = Vec::new();
    while m >= 10
        invariant
            decimal(n as nat) == decimal(m as nat) + tail@,
        decreases m,
    {
        let d = digit_char(m % 10);
        let ghost before = tail@;
        tail.insert(0, d);
        assert(decimal(m as nat) == decimal((m / 10) as nat).push(digit((m % 10) as int)));
        assert(decimal((m / 10) as nat).push(d) + before =~= decimal((m / 10) as nat) + tail@);
        m = m / 10;
    }
    tail.insert(0, digit_char(m));
    assert(decimal(m as nat) =~= seq![digit(m as int)]);
    assert(decimal(n as nat) =~= tail@);
    string_from_chars(tail)
}

/// The message that reports a run that passed only `n` trials, fewer than
/// it had to.
pub open spec fn exhaustion_message(n: nat) -> Seq<char> {
    "(Unable to generate enough tests, "@ + decimal(n) + " not discarded.)"@
}

/// The number of passes in `log`.
pub open spec fn pass_count(log: Seq<Status>) -> nat
    decreases log.len(),
{
    if log.len() == 0 {
        0
    } else {
        pass_count(log.drop_last()) + if log.last() == Status::Pass {
            1nat
        } else {
            0nat
        }
    }
}

/// Whether no trial in `log` failed.
pub open spec fn no_failure(log: Seq<Status>) -> bool {
    forall|i: int| 0 <= i < log.len() ==> #[trigger] log[i] != Status::Fail
}

/// `log` lists, in order, the statuses of the trials of a run that starts a
/// trial only while fewer than `tests` trials have passed and fewer than
/// `max_tests` have run, and that stops at the first failure.
pub open spec fn run_log(log: Seq<Status>, tests: nat, max_tests: nat) -> bool {
    &&& log.len() <= max_tests
    &&& forall|i: int| 0 <= i < log.len() ==> pass_count(#[trigger] log.take(i)) < tests
    &&& forall|i: int| 0 <= i < log.len() - 1 ==> #[trigger] log[i] != Status::Fail
    &&& (log.len() > 0 && log.last() == Status::Fail) || pass_count(log) >= tests || log.len()
        == max_tests
}

/// Every status in `log` is the outcome of some call of `f`.
pub open spec fn outcomes_of<A, T: Testable, F: Fn(A) -> T>(f: F, log: Seq<Status>) -> bool {
    forall|i: int| 0 <= i < log.len() ==> sometimes(f, #[trigger] log[i])
}

/// Whether a run that passed `n` trials fell short: fewer than
/// `min_tests_passed`, or none at all when some were asked for.
pub open spec fn short_of(n: nat, min_tests_passed: nat, tests: nat) -> bool {
    n < min_tests_passed || (n == 0 && tests > 0)
}

/// Appending a status adds one pass exactly when it is a pass, and keeps
/// every prefix of the log.
proof fn lemma_log_push(log: Seq<Status>, s: Status)
    ensures
        pass_count(log.push(s)) == pass_count(log) + if s == Status::Pass {
            1nat
        } else {
            0nat
        },
        forall|i: int| 0 <= i <= log.len() ==> #[trigger] log.push(s).take(i) == log.take(i),
        log.push(s).take(log.len() as int) == log,
{
    assert(log.push(s).drop_last() =~= log);
    assert forall|i: int| 0 <= i <= log.len() implies #[trigger] log.push(s).take(i) == log.take(
        i,
    ) by {
        assert(log.push(s).take(i) =~= log.take(i));
    }
    assert(log.push(s).take(log.len() as int) =~= log);
}

/// The pass count after a trial with status `s`, when `passed` trials had
/// passed before it; `None` when the trial failed and the run stops.
pub fn count_step(passed: u64, s: Status) -> (r: Option<u64>)
    requires
        passed < u64::MAX,
    ensures
        s == Status::Pass ==> r == Some((passed + 1) as u64),
        s == Status::Discard ==> r == Some(passed),
        s == Status::Fail ==> r is None,
{
    match s {
        Status::Pass => Some(passed + 1),
        Status::Discard => Some(passed),
        Status::Fail => None,
    }
}

/// The configuration of a run: how many trials must pass, how many may be
/// run in all (discarded ones included), how many passes are the least that
/// counts as success, and the generator the inputs are drawn from.
pub struct QuickCheck {
    tests: u64,
    max_tests: u64,
    min_tests_passed: u64,
    gen: Gen,
}

impl QuickCheck {
    /// The number of passing trials after which the run stops.
    pub closed spec fn tests_spec(&self) -> u64 {
        self.tests
    }

    /// The number of trials after which the run stops in any case.
    pub closed spec fn max_tests_spec(&self) -> u64 {
        self.max_tests
    }

    /// The least number of passing trials that counts as success.
    pub closed spec fn min_tests_passed_spec(&self) -> u64 {
        self.min_tests_passed
    }

    /// The size of the generator.
    pub closed spec fn gen_size_spec(&self) -> usize {
        self.gen.size_spec()
    }

    /// A run of at most 100 passing trials out of at most 10000, with a
    /// generator of size 100, where any number of passes is success.
    pub fn new() -> (r: QuickCheck)
        ensures
            r.tests_spec() == 100,
            r.max_tests_spec() == 10000,
            r.min_tests_passed_spec() == 0,
            r.gen_size_spec() == 100,
    {
        QuickCheck { tests: 100, max_tests: 10000, min_tests_passed: 0, gen: Gen::new(100) }
    }

    /// This configuration with the generator `gen`.
    pub fn gen(self, gen: Gen) -> (r: QuickCheck)
        ensures
            r.tests_spec() == self.tests_spec(),
            r.max_tests_spec() == self.max_tests_spec(),
            r.min_tests_passed_spec() == self.min_tests_passed_spec(),
            r.gen_size_spec() == gen.size_spec(),
    {
        QuickCheck { gen, ..self }
    }

    /// This configuration with `tests` passing trials to run.
    pub fn tests(self, tests: u64) -> (r: QuickCheck)
        ensures
            r.tests_spec() == tests,
            r.max_tests_spec() == self.max_tests_spec(),
            r.min_tests_passed_spec() == self.min_tests_passed_spec(),
            r.gen_size_spec() == self.gen_size_spec(),
    {
        let mut s = self;
        s.tests = tests;
        s
    }

    /// This configuration with at most `max_tests` trials in all.
    pub fn max_tests(self, max_tests: u64) -> (r: QuickCheck)
        ensures
            r.tests_spec() == self.tests_spec(),
            r.max_tests_spec() == max_tests,
            r.min_tests_passed_spec() == self.min_tests_passed_spec(),
            r.gen_size_spec() == self.gen_size_spec(),
    {
        let mut s = self;
        s.max_tests = max_tests;
        s
    }

    /// This configuration with `min_tests_passed` passes needed for success.
    pub fn min_tests_passed(self, min_tests_passed: u64) -> (r: QuickCheck)
        ensures
            r.tests_spec() == self.tests_spec(),
            r.max_tests_spec() == self.max_tests_spec(),
            r.min_tests_passed_spec() == min_tests_passed,
            r.gen_size_spec() == self.gen_size_spec(),
    {
        let mut s = self;
        s.min_tests_passed = min_tests_passed;
        s
    }

    /// Runs trials of `f` until `tests` of them have passed, `max_tests`
    /// have run, or one fails. Returns the number of passes, or the outcome
    /// of the first failing trial, shrunk to a locally minimal input.
    pub fn quicktest<A: Arguments, T: Testable, F: Fn(A) -> T>(&mut self, f: &F) -> (r: Result<
        u64,
        TestResult,
    >)
        requires
            forall|x: A| f.requires((x,)),
        ensures
            final(self).tests_spec() == old(self).tests_spec(),
            final(self).max_tests_spec() == old(self).max_tests_spec(),
            final(self).min_tests_passed_spec() == old(self).min_tests_passed_spec(),
            final(self).gen_size_spec() == old(self).gen_size_spec(),
            exists|log: Seq<Status>|
                #[trigger] run_log(log, old(self).tests_spec() as nat, old(self).max_tests_spec() as nat)
                    && outcomes_of(*f, log) && match r {
                    Ok(n) => no_failure(log) && n == pass_count(log),
                    Err(t) => log.len() > 0 && log.last() == Status::Fail && minimal_failure::<
                        A,
                        T,
                        F,
                    >(*f, t),
                },
            always(*f, Status::Discard) ==> r == Ok::<u64, TestResult>(0),
            always(*f, Status::Fail) && old(self).tests_spec() > 0 && old(self).max_tests_spec() > 0
                ==> r is Err,
            !sometimes(*f, Status::Discard) ==> r is Err || r == Ok::<u64, TestResult>(
                if old(self).tests_spec() <= old(self).max_tests_spec() {
                    old(self).tests_spec()
                } else {
                    old(self).max_tests_spec()
                },
            ),
    {
        let mut n_tests_passed: u64 = 0;
        let mut i: u64 = 0;
        let ghost mut log: Seq<Status> = Seq::empty();
        while i < self.max_tests && n_tests_passed < self.tests
            invariant
                forall|x: A| f.requires((x,)),
                self.tests == old(self).tests,
                self.max_tests == old(self).max_tests,
                self.min_tests_passed == old(self).min_tests_passed,
                self.gen.size_spec() == old(self).gen.size_spec(),
                i <= self.max_tests,
                n_tests_passed <= self.tests,
                n_tests_passed <= i,
                log.len() == i,
                pass_count(log) == n_tests_passed,
                no_failure(log),
                outcomes_of(*f, log),
                forall|j: int| 0 <= j < log.len() ==> pass_count(#[trigger] log.take(j)) < self.tests,
                always(*f, Status::Discard) ==> n_tests_passed == 0,
                always(*f, Status::Fail) ==> i == 0,
                !sometimes(*f, Status::Discard) ==> n_tests_passed == i,
            decreases self.max_tests - i,
        {
            let r = run_property(&mut self.gen, f);
            proof {
                lemma_log_push(log, r.status_spec());
                log = log.push(r.status_spec());
            }
            match count_step(n_tests_passed, r.status) {
                Some(n) => {
                    n_tests_passed = n;
                },
                None => {
                    assert(r.status_spec() == Status::Fail);
                    assert(log.last() == Status::Fail);
                    assert(outcomes_of(*f, log));
                    assert(minimal_failure::<A, T, F>(*f, r));
                    assert(run_log(log, self.tests as nat, self.max_tests as nat));
                    let ghost res = Err::<u64, TestResult>(r);
                    assert(run_log(
                        log,
                        old(self).tests_spec() as nat,
                        old(self).max_tests_spec() as nat,
                    ) && outcomes_of(*f, log) && match res {
                        Ok(n) => no_failure(log) && n == pass_count(log),
                        Err(t) => log.len() > 0 && log.last() == Status::Fail && minimal_failure::<
                            A,
                            T,
                            F,
                        >(*f, t),
                    });
                    return Err(r);
                },
            }
            i += 1;
        }
        assert(run_log(log, self.tests as nat, self.max_tests as nat));
        Ok(n_tests_passed)
    }

    /// Runs `f` as `quicktest` does, and judges the run: the number of
    /// passes if it fell not short, and otherwise the message that reports
    /// the failing outcome, or the number of passes that fell short.
    pub fn quickcheck<A: Arguments, T: Testable, F: Fn(A) -> T>(&mut self, f: &F) -> (r: Result<
        u64,
        String,
    >)
        requires
            forall|x: A| f.requires((x,)),
        ensures
            exists|log: Seq<Status>|
                #[trigger] run_log(log, old(self).tests_spec() as nat, old(self).max_tests_spec() as nat)
                    && outcomes_of(*f, log) && match r {
                    Ok(n) => no_failure(log) && n == pass_count(log) && !short_of(
                        n as nat,
                        old(self).min_tests_passed_spec() as nat,
                        old(self).tests_spec() as nat,
                    ),
                    Err(m) => (log.len() > 0 && log.last() == Status::Fail && exists|t: TestResult|
                        #[trigger] minimal_failure::<A, T, F>(*f, t) && m@ == failure_message(
                            t.arguments_spec(),
                            t.err_spec(),
                        )) || (no_failure(log) && short_of(
                        pass_count(log),
                        old(self).min_tests_passed_spec() as nat,
                        old(self).tests_spec() as nat,
                    ) && m@ == exhaustion_message(pass_count(log))),
                },
            always(*f, Status::Discard) && old(self).tests_spec() > 0 ==> r is Err
                && r->Err_0@ == exhaustion_message(0),
            always(*f, Status::Fail) && old(self).tests_spec() > 0 && old(self).max_tests_spec() > 0
                ==> r is Err && exists|t: TestResult|
                #[trigger] minimal_failure::<A, T, F>(*f, t) && r->Err_0@ == failure_message(
                    t.arguments_spec(),
                    t.err_spec(),
                ),
    {
        let ghost min = self.min_tests_passed;
        let ghost tests = self.tests;
        let ghost max = self.max_tests;
        let q = self.quicktest(f);
        let ghost log = choose|log: Seq<Status>|
            #[trigger] run_log(log, tests as nat, max as nat) && outcomes_of(*f, log) && match q {
                Ok(n) => no_failure(log) && n == pass_count(log),
                Err(t) => log.len() > 0 && log.last() == Status::Fail && minimal_failure::<A, T, F>(
                    *f,
                    t,
                ),
            };
        match q {
            Ok(n) => {
                if n >= self.min_tests_passed && (n > 0 || self.tests == 0) {
                    assert(run_log(log, tests as nat, max as nat));
                    Ok(n)
                } else {
                    let mut m = String::new();
                    append(&mut m, "(Unable to generate enough tests, ");
                    let digits = decimal_string(n);
                    append(&mut m, digits.as_str());
                    append(&mut m, " not discarded.)");
                    assert(m@ =~= exhaustion_message(n as nat));
                    assert(run_log(log, tests as nat, max as nat));
                    Err(m)
                }
            },
            Err(t) => {
                let m = t.failed_msg();
                assert(m@ == failure_message(t.arguments_spec(), t.err_spec()));
                assert(minimal_failure::<A, T, F>(*f, t));
                assert(run_log(log, tests as nat, max as nat));
                Err(m)
            },
        }
    }
}

/// Runs `f` with the default configuration (100 passes out of at most
/// 10000 trials, generator size 100) and judges the run as
/// `QuickCheck::quickcheck` does.
pub fn quickcheck<A: Arguments, T: Testable, F: Fn(A) -> T>(f: &F) -> (r: Result<u64, String>)
    requires
        forall|x: A| f.requires((x,)),
    ensures
        exists|log: Seq<Status>|
            #[trigger] run_log(log, 100, 10000) && outcomes_of(*f, log) && match r {
                Ok(n) => no_failure(log) && n == pass_count(log) && n > 0,
                Err(m) => (log.len() > 0 && log.last() == Status::Fail && exists|t: TestResult|
                    #[trigger] minimal_failure::<A, T, F>(*f, t) && m@ == failure_message(
                        t.arguments_spec(),
                        t.err_spec(),
                    )) || (no_failure(log) && pass_count(log) == 0 && m@ == exhaustion_message(
                    0,
                )),
            },
        always(*f, Status::Discard) ==> r is Err && r->Err_0@ == exhaustion_message(0),
        always(*f, Status::Fail) ==> r is Err && exists|t: TestResult|
            #[trigger] minimal_failure::<A, T, F>(*f, t) && r->Err_0@ == failure_message(
                t.arguments_spec(),
                t.err_spec(),
            ),
{
    QuickCheck::new().quickcheck(f)
}

} // verus!
