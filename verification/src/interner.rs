//! The shared string interner: host names, image paths and user names are held
//! once and referred to by key.

use lasso::{Spur, ThreadedRodeo};
use std::sync::Arc;
use vstd::prelude::*;

verus! {

/// A key of the interner.
#[verifier::external_type_specification]
#[verifier::external_body]
pub struct ExSpur(Spur);

/// The concurrent interner of `lasso`.
#[verifier::external_type_specification]
#[verifier::external_body]
#[verifier::reject_recursive_types(K)]
#[verifier::reject_recursive_types(S)]
pub struct ExThreadedRodeo<K, S>(ThreadedRodeo<K, S>);

/// Thread-safe string interner shared between the reader and its users.
pub type SharedRodeo = Arc<ThreadedRodeo<Spur>>;

/// The texts behind the keys that an interner gives out. An interner only ever
/// gains entries and never changes one, so this is what it holds once every
/// text that it will be asked for has been added.
pub uninterp spec fn interned(r: ThreadedRodeo<Spur>) -> Map<Spur, Seq<char>>;

/// Whether `key` was given out by the interner.
pub open spec fn holds(r: SharedRodeo, key: Spur) -> bool {
    interned(*r).contains_key(key)
}

/// The text behind a key.
pub open spec fn text_of(r: SharedRodeo, key: Spur) -> Seq<char> {
    interned(*r)[key]
}

/// `ThreadedRodeo::new` makes an empty interner. Nothing is stated of the
/// result: what it will hold depends on the texts it is asked for.
#[verifier::external_body]
pub fn new_rodeo() -> (r: SharedRodeo) {
    Arc::new(ThreadedRodeo::new())
}

/// `ThreadedRodeo::get_or_intern` returns a key for the text, adding the text
/// where the interner does not hold it yet. Running out of the key space or of
/// memory ends the program, as running out of memory does elsewhere.
#[verifier::external_body]
pub(crate) fn intern(r: &SharedRodeo, text: &str) -> (key: Spur)
    ensures
        interned(**r).contains_key(key) && interned(**r)[key] == text@,
{
    r.get_or_intern(text)
}

/// `ThreadedRodeo::resolve` returns the text behind a key that this interner
/// gave out.
#[verifier::external_body]
pub(crate) fn resolve<'a>(r: &'a SharedRodeo, key: &Spur) -> (text: &'a str)
    requires
        holds(*r, *key),
    ensures
        text@ == text_of(*r, *key),
{
    r.resolve(key)
}

} // verus!
