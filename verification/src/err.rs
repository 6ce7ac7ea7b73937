//! Typed decode and encode failures.
//!
//! A decode failure carries the path of fields that was being entered when the
//! failure happened (outermost field first) and the kind of failure at the
//! point where decoding stopped.

use vstd::prelude::*;

verus! {

/// Name of an entity field, used to report where inside a nested value a
/// decode failed.
#[derive(Debug, Clone, Copy, PartialEq, Eq, Structural)]
pub enum FieldId {
    PKH,
    PolicyId,
    AssetName,
    Total,
    OutRef,
    ForHowLong,
    Owner,
    Status,
    PartialWithdraw,
    NftInputOwner,
    NewReceiptOwner,
    TransactionId,
    Index,
}

/// What went wrong at the point where decoding stopped.
#[derive(Debug, Clone, Copy, PartialEq, Eq, Structural)]
pub enum ErrorKind {
    /// The container has the wrong shape or arity for the expected value.
    Shape,
    /// A sum-type discriminant outside the schema-known set.
    UnknownVariant(u64),
    /// The text input is not well-formed for the textual format.
    TextFormat,
    /// The binary input is structurally readable but not in canonical form.
    CanonicalForm,
}

/// Mathematical value of a [`DecodeError`]: the field path and the kind.
#[verifier::ext_equal]
pub struct DecodeErrorV {
    pub path: Seq<FieldId>,
    pub kind: ErrorKind,
}

impl DecodeErrorV {
    /// An error with an empty path.
    pub open spec fn root(kind: ErrorKind) -> DecodeErrorV {
        DecodeErrorV { path: Seq::empty(), kind }
    }

    /// The same error, reported one field deeper.
    pub open spec fn in_field(self, f: FieldId) -> DecodeErrorV {
        DecodeErrorV { path: seq![f] + self.path, kind: self.kind }
    }
}

/// A decode failure: the path of fields entered before the failure
/// (outermost first) and the kind of failure.
#[derive(Debug, PartialEq, Eq)]
pub struct DecodeError {
    pub path: Vec<FieldId>,
    pub kind: ErrorKind,
}

impl View for DecodeError {
    type V = DecodeErrorV;

    open spec fn view(&self) -> DecodeErrorV {
        DecodeErrorV { path: self.path@, kind: self.kind }
    }
}

impl Clone for DecodeError {
    fn clone(&self) -> (r: Self)
        ensures
            r@ == self@,
    {
        let mut path: Vec<FieldId> = Vec::new();
        let mut i: usize = 0;
        while i < self.path.len()
            invariant
                i <= self.path.len(),
                path@ == self.path@.subrange(0, i as int),
            decreases self.path.len() - i,
        {
            path.push(self.path[i]);
            proof {
                assert(path@ =~= self.path@.subrange(0, i + 1 as int));
            }
            i = i + 1;
        }
        let r = DecodeError { path, kind: self.kind };
        proof {
            assert(self.path@.subrange(0, self.path@.len() as int) =~= self.path@);
            assert(r@ =~= self@);
        }
        r
    }
}

impl DecodeError {
    /// An error with an empty field path.
    pub fn root(kind: ErrorKind) -> (r: DecodeError)
        ensures
            r@ == DecodeErrorV::root(kind),
    {
        let r = DecodeError { path: Vec::new(), kind };
        proof {
            assert(r@ =~= DecodeErrorV::root(kind));
        }
        r
    }

    /// The same error, reported one field deeper.
    pub fn in_field(self, f: FieldId) -> (r: DecodeError)
        ensures
            r@ == self@.in_field(f),
    {
        let DecodeError { path, kind } = self;
        let mut new_path: Vec<FieldId> = Vec::new();
        new_path.push(f);
        let mut rest = path;
        new_path.append(&mut rest);
        let r = DecodeError { path: new_path, kind };
        proof {
            assert(r@ =~= DecodeErrorV { path: seq![f] + self@.path, kind: self@.kind });
        }
        r
    }

    /// The kind of failure at the point where decoding stopped.
    pub fn kind(&self) -> (r: ErrorKind)
        ensures
            r == self@.kind,
    {
        self.kind
    }

    /// The path of fields entered before the failure, outermost first.
    pub fn path(&self) -> (r: &Vec<FieldId>)
        ensures
            r@ == self@.path,
    {
        &self.path
    }
}

/// An encode failure of the textual bridge. The entities of this crate are
/// always representable, so the verified encoders never produce one; the type
/// exists so the textual bridge keeps a fallible signature.
#[derive(Debug, Clone, Copy, PartialEq, Eq, Structural)]
pub enum EncodeError {
    /// A value outside the representable range of the textual format.
    Unrepresentable,
}

} // verus!
