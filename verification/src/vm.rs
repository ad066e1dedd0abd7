//! The state of a walk: the two stacks of path tokens and the errors found
//! so far.

use std::borrow::Cow;
use vstd::prelude::*;
use crate::schema::Schema;
use crate::trace::limited;
use crate::trace::ErrorIndicator;
use crate::trace::Trace;
use crate::validate::errors_view;
use crate::validate::tokens_view;
use crate::validate::ValidateOptions;
use crate::validate::ValidationErrorIndicator;

verus! {

/// How a walk ended.
pub enum Signal {
    /// It came to its end.
    Done,
    /// It found as many errors as were asked for.
    MaxErrorsReached,
    /// It ran into the limit on the depth of references.
    MaxDepthExceeded,
}

/// Why a walk stopped early.
pub enum VmValidateError {
    MaxErrorsReached,
    MaxDepthExceeded,
}

/// How a walk ended, by what it returned.
pub open spec fn signal_of(r: Result<(), VmValidateError>) -> Signal {
    match r {
        Ok(()) => Signal::Done,
        Err(VmValidateError::MaxErrorsReached) => Signal::MaxErrorsReached,
        Err(VmValidateError::MaxDepthExceeded) => Signal::MaxDepthExceeded,
    }
}

/// The errors that are held after the walk `t`, where `prior` were held
/// before it and at most `max_errors` are asked for (0: all), and how the
/// walk ended.
pub open spec fn run(prior: Seq<ErrorIndicator>, t: Trace, max_errors: nat) -> (
    Seq<ErrorIndicator>,
    Signal,
) {
    let all = prior + t.errors;
    if max_errors > 0 && all.len() >= max_errors {
        (all.take(max_errors as int), Signal::MaxErrorsReached)
    } else if t.exceeded {
        (all, Signal::MaxDepthExceeded)
    } else {
        (all, Signal::Done)
    }
}

/// A walk followed by another runs as the first and then, if that came to
/// its end, the second.
pub proof fn lemma_run_followed_by(prior: Seq<ErrorIndicator>, a: Trace, b: Trace, max_errors: nat)
    ensures
        run(prior, a.followed_by(b), max_errors) == (if run(prior, a, max_errors).1 is Done {
            run(run(prior, a, max_errors).0, b, max_errors)
        } else {
            run(prior, a, max_errors)
        }),
{
    let m = max_errors as int;
    if !a.exceeded {
        let first = prior + a.errors;
        let all = prior + (a.errors + b.errors);
        assert(all =~= first + b.errors);
        if max_errors > 0 && first.len() >= max_errors {
            assert(all.take(m) =~= first.take(m));
        }
    }
}

/// Nothing to walk: the errors stay, unless they are already as many as
/// were asked for.
pub proof fn lemma_run_none(prior: Seq<ErrorIndicator>, max_errors: nat)
    requires
        max_errors == 0 || prior.len() < max_errors,
    ensures
        run(prior, Trace::none(), max_errors) == (prior, Signal::Done),
{
    assert(prior + Trace::none().errors =~= prior);
}

/// The state of a walk.
pub struct Vm<'a> {
    pub root: &'a Schema,
    pub options: ValidateOptions,
    pub instance_tokens: Vec<Cow<'a, str>>,
    pub schema_tokens: Vec<Vec<Cow<'a, str>>>,
    pub errors: Vec<ValidationErrorIndicator<'a>>,
}

/// The state of a walk as a mathematical value.
pub struct VmView {
    /// The path to the part of the instance that is being walked.
    pub ipath: Seq<Seq<char>>,
    /// The paths into the schema: one for the root, and one more for each
    /// reference that is being followed.
    pub stacks: Seq<Seq<Seq<char>>>,
    /// The errors found so far.
    pub found: Seq<ErrorIndicator>,
}

impl VmView {
    /// How many references are being followed, and one.
    pub open spec fn depth(self) -> nat {
        self.stacks.len()
    }

    /// The path into the schema since the last reference.
    pub open spec fn spath(self) -> Seq<Seq<char>> {
        self.stacks.last()
    }

    /// This state with another path into the schema since the last
    /// reference.
    pub open spec fn with_spath(self, spath: Seq<Seq<char>>) -> VmView {
        VmView { stacks: self.stacks.update(self.stacks.len() - 1, spath), ..self }
    }
}

impl<'a> View for Vm<'a> {
    type V = VmView;

    open spec fn view(&self) -> VmView {
        VmView {
            ipath: tokens_view(self.instance_tokens@),
            stacks: Seq::new(
                self.schema_tokens@.len(),
                |i: int| tokens_view(self.schema_tokens@[i]@),
            ),
            found: errors_view(self.errors@),
        }
    }
}

/// Stepping into a part of the schema and back out leaves the paths as they
/// were.
pub proof fn lemma_restore(stacks: Seq<Seq<Seq<char>>>, token: Seq<char>)
    requires
        stacks.len() >= 1,
    ensures
        stacks.update(stacks.len() - 1, stacks.last().push(token)).last() == stacks.last().push(
            token,
        ),
        stacks.update(stacks.len() - 1, stacks.last().push(token)).update(
            stacks.len() - 1,
            stacks.last().push(token).drop_last(),
        ) == stacks,
        stacks.push(seq!["definitions"@, token]).drop_last() == stacks,
        stacks.last().push(token).drop_last() == stacks.last(),
{
    let n = stacks.len() - 1;
    assert(stacks.last().push(token).drop_last() =~= stacks.last());
    assert(stacks.update(n, stacks.last().push(token)).update(
        n,
        stacks.last().push(token).drop_last(),
    ) =~= stacks);
    assert(stacks.push(seq!["definitions"@, token]).drop_last() =~= stacks);
}

/// A copy of the tokens of a path.
fn clone_tokens<'a>(tokens: &Vec<Cow<'a, str>>) -> (r: Vec<Cow<'a, str>>)
    ensures
        tokens_view(r@) == tokens_view(tokens@),
{
    let mut out: Vec<Cow<'a, str>> = Vec::new();
    let mut i: usize = 0;
    while i < tokens.len()
        invariant
            i <= tokens.len(),
            out@.len() == i,
            forall|j: int| 0 <= j < i ==> out@[j]@ == tokens@[j]@,
        decreases tokens.len() - i,
    {
        let token: Cow<'a, str> = match &tokens[i] {
            Cow::Borrowed(s) => Cow::Borrowed(*s),
            Cow::Owned(s) => Cow::Owned(s.clone()),
        };
        out.push(token);
        i = i + 1;
    }
    assert(tokens_view(out@) =~= tokens_view(tokens@));
    out
}

impl<'a> Vm<'a> {
    /// The limit on the depth of references.
    pub open spec fn max_depth(self) -> nat {
        self.options.max_depth() as nat
    }

    /// The limit on the number of errors.
    pub open spec fn max_errors(self) -> nat {
        self.options.max_errors() as nat
    }

    /// What holds of the state between the steps of a walk: there is a path
    /// into the schema, fewer errors are held than were asked for, and the
    /// limit on the depth is not met.
    pub open spec fn inv(self) -> bool {
        &&& self@.depth() >= 1
        &&& self.max_errors() == 0 || self@.found.len() < self.max_errors()
        &&& limited(self.max_depth()) ==> self@.depth() < self.max_depth()
    }

    /// Whether `self` is the state `before` at a later step of the same
    /// walk.
    pub open spec fn continues(self, before: Vm<'a>) -> bool {
        &&& self.root == before.root
        &&& self.options == before.options
    }

    /// The state at the start of the walk of an instance under `schema`.
    pub fn new(schema: &'a Schema, options: ValidateOptions) -> (r: Self)
        ensures
            r.root == schema,
            r.options == options,
            r@ == (VmView { ipath: Seq::empty(), stacks: seq![Seq::empty()], found: Seq::empty() }),
    {
        let mut schema_tokens: Vec<Vec<Cow<'a, str>>> = Vec::new();
        schema_tokens.push(Vec::new());
        let r = Vm {
            root: schema,
            options,
            instance_tokens: Vec::new(),
            schema_tokens,
            errors: Vec::new(),
        };
        assert(r@.ipath =~= Seq::empty());
        assert(r@.found =~= Seq::empty());
        assert(r@.stacks =~= seq![Seq::empty()]) by {
            assert(r@.stacks[0] =~= Seq::empty());
        }
        r
    }

    /// The errors found.
    pub fn into_errors(self) -> (r: Vec<ValidationErrorIndicator<'a>>)
        ensures
            errors_view(r@) == self@.found,
    {
        self.errors
    }

    /// Holds the current position as an error.
    pub(crate) fn push_error(&mut self) -> (r: Result<(), VmValidateError>)
        requires
            old(self).inv(),
        ensures
            final(self).continues(*old(self)),
            final(self)@.ipath == old(self)@.ipath,
            final(self)@.stacks == old(self)@.stacks,
            (final(self)@.found, signal_of(r)) == run(
                old(self)@.found,
                Trace::error(old(self)@.ipath, old(self)@.spath()),
                old(self).max_errors(),
            ),
            r is Ok ==> final(self).inv(),
            !(r matches Err(VmValidateError::MaxDepthExceeded)),
    {
        let ghost before = self@;
        let instance_path = clone_tokens(&self.instance_tokens);
        let schema_path = clone_tokens(&self.schema_tokens[self.schema_tokens.len() - 1]);
        let indicator = ValidationErrorIndicator { instance_path, schema_path };
        assert(indicator@ == ErrorIndicator {
            instance_path: before.ipath,
            schema_path: before.spath(),
        });
        self.errors.push(indicator);
        assert(self@.found =~= before.found + seq![indicator@]);
        assert(self@.stacks =~= before.stacks);
        assert(self@.found.take(self@.found.len() as int) =~= self@.found);
        if self.options.max_errors_limit() == self.errors.len() {
            Err(VmValidateError::MaxErrorsReached)
        } else {
            Ok(())
        }
    }

    /// Steps into the part of the schema that `token` names.
    pub(crate) fn push_schema_token(&mut self, token: &'a str)
        requires
            old(self)@.depth() >= 1,
        ensures
            final(self).continues(*old(self)),
            final(self)@ == old(self)@.with_spath(old(self)@.spath().push(token@)),
    {
        let ghost before = self@;
        let mut top = self.schema_tokens.pop().unwrap();
        top.push(Cow::Borrowed(token));
        assert(tokens_view(top@) =~= before.spath().push(token@));
        self.schema_tokens.push(top);
        assert(self@.stacks =~= before.stacks.update(
            before.stacks.len() - 1,
            before.spath().push(token@),
        ));
    }

    /// Steps back out of a part of the schema.
    pub(crate) fn pop_schema_token(&mut self)
        requires
            old(self)@.depth() >= 1,
            old(self)@.spath().len() >= 1,
        ensures
            final(self).continues(*old(self)),
            final(self)@ == old(self)@.with_spath(old(self)@.spath().drop_last()),
    {
        let ghost before = self@;
        let mut top = self.schema_tokens.pop().unwrap();
        top.pop();
        assert(tokens_view(top@) =~= before.spath().drop_last());
        self.schema_tokens.push(top);
        assert(self@.stacks =~= before.stacks.update(
            before.stacks.len() - 1,
            before.spath().drop_last(),
        ));
    }

    /// Steps into the member of the instance that `token` names.
    pub(crate) fn push_instance_token(&mut self, token: &'a str)
        ensures
            final(self).continues(*old(self)),
            final(self)@ == (VmView { ipath: old(self)@.ipath.push(token@), ..old(self)@ }),
    {
        let ghost before = self@;
        self.instance_tokens.push(Cow::Borrowed(token));
        assert(self@.ipath =~= before.ipath.push(token@));
        assert(self@.stacks =~= before.stacks);
    }

    /// Steps back out of a part of the instance.
    pub(crate) fn pop_instance_token(&mut self)
        requires
            old(self)@.ipath.len() >= 1,
        ensures
            final(self).continues(*old(self)),
            final(self)@ == (VmView { ipath: old(self)@.ipath.drop_last(), ..old(self)@ }),
    {
        let ghost before = self@;
        self.instance_tokens.pop();
        assert(self@.ipath =~= before.ipath.drop_last());
        assert(self@.stacks =~= before.stacks);
    }
}

} // verus!
