//! Loading many tensors, one after the other.
//!
//! A [`LoadStep`] says how a sequence of loads goes: which error stops it, and
//! whether every tensor that it gets to has a usable shape.

use vstd::prelude::*;
use crate::error::Error;
use crate::header::EntryView;
use crate::loader::{Dtype, ModelFile, is_loaded, load_error, rank_fits};
use crate::tensor::Tensor;
use crate::text::{decimal_chars, decimal_text, push_text, string_of};

verus! {

/// How a sequence of loads goes.
pub struct LoadStep {
    /// The error that stops it, if one does.
    pub error: Option<Error>,
    /// Every tensor that it gets to has a shape that can be used.
    pub fits: bool,
}

impl LoadStep {
    /// This sequence, and after it, if nothing stopped it, the next.
    pub open spec fn followed_by(self, next: LoadStep) -> LoadStep {
        LoadStep {
            error: match self.error {
                Some(e) => Some(e),
                None => next.error,
            },
            fits: self.fits && (self.error is None ==> next.fits),
        }
    }
}

/// No load at all.
pub open spec fn no_step() -> LoadStep {
    LoadStep { error: None, fits: true }
}

/// Loading the named `F32` tensor.
pub open spec fn tensor_step(entries: Seq<EntryView>, name: Seq<char>) -> LoadStep {
    LoadStep { error: load_error(entries, name), fits: rank_fits(entries, name) }
}

/// Loading the named `F32` tensor if it can be loaded.
pub open spec fn optional_step(entries: Seq<EntryView>, name: Seq<char>) -> LoadStep {
    LoadStep { error: None, fits: rank_fits(entries, name) }
}

/// How a sequence of loads would go, found out without loading.
#[derive(Clone, Copy)]
pub struct LoadCheck {
    /// An error would stop it.
    pub failed: bool,
    /// Every tensor that it would get to has a shape that can be used.
    pub fits: bool,
}

impl LoadCheck {
    /// The check says how the step goes.
    pub open spec fn shows(self, step: LoadStep) -> bool {
        self.failed == (step.error is Some) && self.fits == step.fits
    }

    /// No load at all.
    pub fn nothing() -> (res: Self)
        ensures
            res.shows(no_step()),
    {
        LoadCheck { failed: false, fits: true }
    }

    /// This sequence, and after it, if nothing stopped it, the next.
    pub fn followed_by(self, next: LoadCheck) -> (res: Self)
        ensures
            res.failed == (self.failed || next.failed),
            res.fits == (self.fits && (!self.failed ==> next.fits)),
    {
        LoadCheck {
            failed: self.failed || next.failed,
            fits: self.fits && (self.failed || next.fits),
        }
    }
}

/// How loading the named `F32` tensor would go.
pub fn check_tensor(file: &ModelFile<'_>, name: &str) -> (res: LoadCheck)
    ensures
        res.shows(tensor_step(file.entries(), name@)),
{
    let fits = file.rank_fits(name);
    let failed = match file.get(name) {
        Ok(view) => view.dtype != Dtype::F32,
        Err(_) => true,
    };
    LoadCheck { failed, fits }
}

/// How loading the named `F32` tensor, if it can be loaded, would go.
pub fn check_optional(file: &ModelFile<'_>, name: &str) -> (res: LoadCheck)
    ensures
        res.shows(optional_step(file.entries(), name@)),
{
    LoadCheck { failed: false, fits: file.rank_fits(name) }
}

/// The named tensor, if it can be loaded.
pub open spec fn is_loaded_if_present<T, F: Fn(u32) -> T>(
    tensor: Option<Tensor<T>>,
    entries: Seq<EntryView>,
    bytes: Seq<u8>,
    name: Seq<char>,
    decode: F,
) -> bool {
    match tensor {
        Some(t) => load_error(entries, name) is None && is_loaded(t, entries, bytes, name, decode),
        None => load_error(entries, name) is Some,
    }
}

/// Loads the named `F32` tensor if it can be loaded.
pub fn load_if_present<T, F: Fn(u32) -> T>(
    file: &ModelFile<'_>,
    name: &str,
    decode: &F,
) -> (res: Option<Tensor<T>>)
    requires
        forall|word: u32| call_requires(*decode, (word,)),
        rank_fits(file.entries(), name@),
    ensures
        is_loaded_if_present(res, file.entries(), file.bytes(), name@, *decode),
{
    match file.load(name, decode) {
        Ok(tensor) => Some(tensor),
        Err(_) => None,
    }
}

/// Two texts joined.
pub fn join(a: &str, b: &str) -> (res: String)
    ensures
        res@ == a@ + b@,
{
    let mut out = String::new();
    push_text(&mut out, a);
    push_text(&mut out, b);
    assert(out@ =~= a@ + b@);
    out
}

/// A number between two texts, in decimal digits.
pub open spec fn numbered(head: Seq<char>, i: nat, tail: Seq<char>) -> Seq<char> {
    head + decimal_text(i) + tail
}

/// A number between two texts, in decimal digits.
pub fn join_numbered(head: &str, i: usize, tail: &str) -> (res: String)
    ensures
        res@ == numbered(head@, i as nat, tail@),
{
    let mut out = String::new();
    push_text(&mut out, head);
    push_text(&mut out, string_of(decimal_chars(i as u64).as_slice()).as_str());
    push_text(&mut out, tail);
    assert(out@ =~= numbered(head@, i as nat, tail@));
    out
}

} // verus!
