//! Errors produced by the cache.
use vstd::prelude::*;

use crate::key::{key_filename, key_to_filename};

verus! {

/// Errors produced by `FileBackedLfuCache`.
///
/// `K` is the key type, `E` the error type of the file operations that the
/// caller performs.
#[derive(Debug, Clone, PartialEq, Eq)]
pub enum Error<K, E> {
    /// Cannot initialise the given path as a backing directory: it does not
    /// resolve to a directory.
    Init(String),
    /// An item cannot be found with this key in cache.
    NotInCache(K),
    /// An item cannot be found with this key on disk.
    NotOnDisk(K),
    /// An item cannot be found with this key either in cache or on disk.
    NotFound(K),
    /// An error occurred when performing file operations.
    FileOp(E),
    /// An item with this key is temporarily immutable due to outstanding
    /// references.
    Immutable(K),
}

impl<K, E> From<E> for Error<K, E> {
    fn from(err: E) -> (r: Self)
        ensures
            r == Error::<K, E>::FileOp(err),
    {
        Error::FileOp(err)
    }
}

impl<K, E> vstd::std_specs::convert::FromSpecImpl<E> for Error<K, E> {
    open spec fn obeys_from_spec() -> bool {
        true
    }

    open spec fn from_spec(v: E) -> Self {
        Error::FileOp(v)
    }
}

/// The text of `Debug` for a `Path` made of `s`, quoted and escaped.
pub uninterp spec fn path_debug_text(s: Seq<char>) -> Seq<char>;

/// Whether every character of `s` is a printable ASCII character other than
/// `"`, `'` and `\`, the characters that `Debug` of a path writes as they are.
pub open spec fn plain_ascii(s: Seq<char>) -> bool {
    forall|i: int| 0 <= i < s.len() ==> {
        let c = #[trigger] s[i];
        ' ' <= c <= '~' && c != '"' && c != '\'' && c != '\\'
    }
}

/// `Debug` for `Path` (through `format!`): the path between double quotes,
/// each character escaped as `char::escape_debug` does; plain printable ASCII
/// text comes out unchanged.
#[verifier::external_body]
fn path_debug_quoted(s: &str) -> (r: String)
    ensures
        r@ == path_debug_text(s@),
        plain_ascii(s@) ==> r@ == seq!['"'] + s@ + seq!['"'],
{
    format!("{:?}", std::path::Path::new(s))
}

/// The message of an error that does not wrap a file error.
pub open spec fn message_text<E>(err: Error<u128, E>) -> Seq<char> {
    match err {
        Error::Init(p) => "Cannot initialise "@ + path_debug_text(p@) + " as a backing directory."@,
        Error::NotInCache(k) => "Cannot find an item with key "@ + key_filename(k) + " in cache"@,
        Error::NotOnDisk(k) => "Cannot find an item with key "@ + key_filename(k) + " on disk"@,
        Error::NotFound(k) => "Cannot find an item with key "@ + key_filename(k)
            + " either in cache or on disk"@,
        Error::Immutable(k) => "An item with key "@ + key_filename(k)
            + " is temporarily immutable due to outstanding references"@,
        Error::FileOp(_) => "An error occurred when performing file operations: "@,
    }
}

impl<E: core::fmt::Display> Error<u128, E> {
    /// The message that describes the error; for a file error, followed by
    /// the file error's own text.
    pub fn message(&self) -> (s: String)
        ensures
            !(*self is FileOp) ==> s@ == message_text(*self),
            *self matches Error::Init(p) ==> (plain_ascii(p@) ==> s@
                == "Cannot initialise \""@ + p@ + "\" as a backing directory."@),
            *self matches Error::FileOp(e) ==> exists|t: String|
                vstd::string::to_string_from_display_ensures::<E>(&e, t) && s@ == message_text(
                    *self,
                ) + t@,
    {
        match self {
            Error::Init(p) => {
                let mut s = "Cannot initialise ".to_owned();
                let q = path_debug_quoted(p.as_str());
                s.append(q.as_str());
                s.append(" as a backing directory.");
                proof {
                    reveal_strlit("Cannot initialise ");
                    reveal_strlit(" as a backing directory.");
                    reveal_strlit("Cannot initialise \"");
                    reveal_strlit("\" as a backing directory.");
                    if plain_ascii(p@) {
                        assert(s@ =~= "Cannot initialise \""@ + p@ + "\" as a backing directory."@);
                    }
                }
                s
            },
            Error::NotInCache(k) => {
                let mut s = "Cannot find an item with key ".to_owned();
                let name = key_to_filename(*k);
                s.append(name.as_str());
                s.append(" in cache");
                s
            },
            Error::NotOnDisk(k) => {
                let mut s = "Cannot find an item with key ".to_owned();
                let name = key_to_filename(*k);
                s.append(name.as_str());
                s.append(" on disk");
                s
            },
            Error::NotFound(k) => {
                let mut s = "Cannot find an item with key ".to_owned();
                let name = key_to_filename(*k);
                s.append(name.as_str());
                s.append(" either in cache or on disk");
                s
            },
            Error::Immutable(k) => {
                let mut s = "An item with key ".to_owned();
                let name = key_to_filename(*k);
                s.append(name.as_str());
                s.append(" is temporarily immutable due to outstanding references");
                s
            },
            Error::FileOp(e) => {
                let mut s = "An error occurred when performing file operations: ".to_owned();
                let t = e.to_string();
                s.append(t.as_str());
                s
            },
        }
    }
}

/// The errors among the outcomes of a series of file operations, in order,
/// each as a `FileOp` error.
pub open spec fn flush_errors<K, E>(outcomes: Seq<Result<(), E>>) -> Seq<Error<K, E>>
    decreases outcomes.len(),
{
    if outcomes.len() == 0 {
        Seq::empty()
    } else {
        let rest = flush_errors::<K, E>(outcomes.drop_last());
        match outcomes.last() {
            Ok(_) => rest,
            Err(e) => rest.push(Error::FileOp(e)),
        }
    }
}

/// The number of failed outcomes in `outcomes`.
pub open spec fn failure_count<E>(outcomes: Seq<Result<(), E>>) -> nat
    decreases outcomes.len(),
{
    if outcomes.len() == 0 {
        0
    } else {
        failure_count(outcomes.drop_last()) + if outcomes.last() is Err {
            1nat
        } else {
            0nat
        }
    }
}

proof fn lemma_failure_count<K, E>(outcomes: Seq<Result<(), E>>)
    ensures
        flush_errors::<K, E>(outcomes).len() == failure_count(outcomes),
        failure_count(outcomes) == 0 <==> forall|i: int|
            0 <= i < outcomes.len() ==> #[trigger] outcomes[i] is Ok,
    decreases outcomes.len(),
{
    if outcomes.len() > 0 {
        let rest = outcomes.drop_last();
        lemma_failure_count::<K, E>(rest);
        if failure_count(outcomes) == 0 {
            assert forall|i: int| 0 <= i < outcomes.len() implies #[trigger] outcomes[i] is Ok by {
                if i < outcomes.len() - 1 {
                    assert(rest[i] == outcomes[i]);
                }
            }
        }
        if forall|i: int| 0 <= i < outcomes.len() ==> #[trigger] outcomes[i] is Ok {
            assert forall|i: int| 0 <= i < rest.len() implies #[trigger] rest[i] is Ok by {
                assert(rest[i] == outcomes[i]);
            }
            assert(outcomes[outcomes.len() - 1] is Ok);
        }
    }
}

proof fn lemma_failure_position<K, E>(outcomes: Seq<Result<(), E>>, i: int)
    requires
        0 <= i < outcomes.len(),
        outcomes[i] is Err,
    ensures
        failure_count(outcomes.take(i)) < flush_errors::<K, E>(outcomes).len(),
        flush_errors::<K, E>(outcomes)[failure_count(outcomes.take(i)) as int]
            == Error::<K, E>::FileOp(outcomes[i]->Err_0),
    decreases outcomes.len(),
{
    let rest = outcomes.drop_last();
    let n = outcomes.len() - 1;
    lemma_failure_count::<K, E>(rest);
    if i < n {
        lemma_failure_position::<K, E>(rest, i);
        assert(outcomes.take(i) =~= rest.take(i));
        assert(rest[i] == outcomes[i]);
    } else {
        assert(outcomes.take(i) =~= rest);
    }
}

/// Every failure is reported, in order, and nothing else: one `FileOp` error
/// for each failed outcome, the `i`th failure's error standing after those of
/// the failures before it; no error at all exactly when every outcome
/// succeeded.
pub proof fn law_every_failure_is_reported<K, E>(outcomes: Seq<Result<(), E>>)
    ensures
        flush_errors::<K, E>(outcomes).len() == failure_count(outcomes),
        flush_errors::<K, E>(outcomes).len() == 0 <==> forall|i: int|
            0 <= i < outcomes.len() ==> #[trigger] outcomes[i] is Ok,
        forall|i: int|
            0 <= i < outcomes.len() && #[trigger] outcomes[i] is Err ==> flush_errors::<K, E>(
                outcomes,
            )[failure_count(outcomes.take(i)) as int] == Error::<K, E>::FileOp(outcomes[i]->Err_0),
{
    lemma_failure_count::<K, E>(outcomes);
    assert forall|i: int| 0 <= i < outcomes.len() && #[trigger] outcomes[i] is Err implies flush_errors::<K, E>(
        outcomes,
    )[failure_count(outcomes.take(i)) as int] == Error::<K, E>::FileOp(outcomes[i]->Err_0) by {
        lemma_failure_position::<K, E>(outcomes, i);
    }
}

/// Gathers the outcomes of flushing several items: `Ok` when every flush
/// succeeded, else every error, in the order of the outcomes.
pub fn collect_flush_errors<K, E>(outcomes: Vec<Result<(), E>>) -> (r: Result<(), Vec<Error<K, E>>>)
    ensures
        flush_errors::<K, E>(outcomes@).len() == 0 ==> r is Ok,
        flush_errors::<K, E>(outcomes@).len() > 0 ==> (r matches Err(errors) && errors@
            == flush_errors::<K, E>(outcomes@)),
        r is Ok <==> forall|i: int| 0 <= i < outcomes@.len() ==> #[trigger] outcomes@[i] is Ok,
        r matches Err(errors) ==> errors@.len() == failure_count(outcomes@),
{
    proof {
        law_every_failure_is_reported::<K, E>(outcomes@);
    }
    let ghost all = outcomes@;
    let mut errors: Vec<Error<K, E>> = Vec::new();
    for outcome in it: outcomes
        invariant
            it.seq() == all,
            errors@ == flush_errors::<K, E>(all.take(it.index() as int)),
    {
        assert(all.take(it.index() + 1).drop_last() =~= all.take(it.index() as int));
        match outcome {
            Ok(()) => {},
            Err(e) => {
                errors.push(Error::FileOp(e));
            },
        }
    }
    assert(all.take(all.len() as int) =~= all);
    if errors.len() == 0 {
        Ok(())
    } else {
        Err(errors)
    }
}

} // verus!
