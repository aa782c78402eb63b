//! Bringing one language's file up to date: which stubs it needs, and the
//! bytes that add them.

use vstd::prelude::*;
use crate::keys::{key_set, lemma_strictly_sorted_unique, strictly_sorted, views};
use crate::laws::{is_stub_key, lemma_provided_keys, lemma_stubs_extend_file};
use crate::line::LineView;
use crate::reconcile::{missing_set, reconcile};
use crate::stub::stub_block;
use crate::translation::{mapping_of, read_bytes, Translation, TranslationView};
use crate::wide::{is_bmp, wide_bytes, EncodingError};

verus! {

/// The keys of `set` in ascending order, each once. There is one such
/// sequence for every finite set of keys, and no more than one.
pub open spec fn keys_in_order(set: Set<Seq<char>>) -> Seq<Seq<char>> {
    choose|s: Seq<Seq<char>>| strictly_sorted(s) && s.to_set() == set
}

/// The keys that a file with the lines `lines` is missing, in ascending
/// order.
pub open spec fn missing_keys(
    required: Seq<String>,
    lines: Seq<LineView>,
    baseline: Seq<String>,
) -> Seq<Seq<char>> {
    keys_in_order(missing_set(key_set(required), mapping_of(lines).dom(), key_set(baseline)))
}

/// What has to be done to a language's file.
#[derive(Debug)]
pub enum Update {
    /// The file misses no key: there is nothing to append.
    NoneNeeded,
    /// The file misses `stubs`: `bytes` are to be appended to it.
    Append { stubs: Vec<String>, bytes: Vec<u8> },
}

/// Why no update could be worked out.
#[derive(Clone, Copy, Debug, PartialEq, Eq, Structural)]
pub enum UpdateError {
    /// The file has not been read, so that what it misses is not known.
    Unread,
    /// The stubs cannot be written as wide characters.
    Encoding(EncodingError),
}

/// A strictly sorted sequence is the keys of its set in order.
pub proof fn lemma_keys_in_order(s: Seq<Seq<char>>)
    requires
        strictly_sorted(s),
    ensures
        keys_in_order(s.to_set()) == s,
{
    let t = keys_in_order(s.to_set());
    lemma_strictly_sorted_unique(t, s);
}

/// `r` is what updating the file `before`, which misses `missing`, comes to,
/// and `after` is the file then.
pub open spec fn is_update(
    before: TranslationView,
    missing: Seq<Seq<char>>,
    r: Result<Update, UpdateError>,
    after: TranslationView,
) -> bool {
    if !before.loaded {
        r is Err && r->Err_0 == UpdateError::Unread && after == before
    } else if missing.len() == 0 {
        r is Ok && r->Ok_0 is NoneNeeded && after == before
    } else if is_bmp(stub_block(missing)) {
        &&& r is Ok
        &&& r->Ok_0 is Append
        &&& views(r->Ok_0->stubs@) == missing
        &&& r->Ok_0->bytes@ == wide_bytes(stub_block(missing))
        &&& after == (TranslationView { loaded: false, lines: Seq::empty(), ..before })
    } else {
        r is Err && r->Err_0 == UpdateError::Encoding(EncodingError::Unrepresentable) && after
            == before
    }
}

/// Works out what a language's file needs. A file that was not read is not
/// touched. A file that misses none of the required keys needs nothing and
/// stays as it is. For any other file the stub block for the missing keys,
/// in ascending order, is to be appended; with these bytes handed out the
/// handle has to be loaded again. When the stubs cannot be written, the
/// handle stays as it was.
pub fn update_language(trfile: &mut Translation, required: &Vec<String>, baseline: &Vec<String>)
    -> (r: Result<Update, UpdateError>)
    ensures
        is_update(old(trfile)@, missing_keys(required@, old(trfile)@.lines, baseline@), r, final(trfile)@),
{
    let provided = match trfile.provided_translations() {
        Some(keys) => keys,
        None => {
            return Err(UpdateError::Unread);
        },
    };
    let result = reconcile(required, &provided, baseline);
    proof {
        lemma_provided_keys(trfile@.lines);
        lemma_keys_in_order(views(result.missing@));
    }
    if result.missing.len() == 0 {
        return Ok(Update::NoneNeeded);
    }
    match trfile.add_stub_translation(&result.missing) {
        Ok(bytes) => Ok(Update::Append { stubs: result.missing, bytes }),
        Err(e) => Err(UpdateError::Encoding(e)),
    }
}

/// An update leaves nothing missing. Take a file that can be read, the
/// keys that it misses, each of them a key for which a stub line can be
/// written, and the file with the stub block for these keys appended, which
/// can be read too. Then that file misses none of the required keys: to
/// update it again adds nothing.
pub proof fn lemma_update_completes(
    bytes: Seq<u8>,
    required: Set<Seq<char>>,
    baseline: Set<Seq<char>>,
    stubs: Seq<Seq<char>>,
)
    requires
        read_bytes(bytes) is Ok,
        stubs.to_set() == missing_set(
            required,
            mapping_of(read_bytes(bytes)->Ok_0).dom(),
            baseline,
        ),
        forall|i: int| 0 <= i < stubs.len() ==> is_stub_key(#[trigger] stubs[i]),
        is_bmp(stub_block(stubs)),
        read_bytes(bytes + wide_bytes(stub_block(stubs))) is Ok,
    ensures
        missing_set(
            required,
            mapping_of(read_bytes(bytes + wide_bytes(stub_block(stubs)))->Ok_0).dom(),
            baseline,
        ) == Set::<Seq<char>>::empty(),
{
    let before = mapping_of(read_bytes(bytes)->Ok_0);
    let after = mapping_of(read_bytes(bytes + wide_bytes(stub_block(stubs)))->Ok_0);
    lemma_stubs_extend_file(bytes, stubs);
    let left = missing_set(required, after.dom(), baseline);
    assert forall|k: Seq<char>| !left.contains(k) by {
        if left.contains(k) {
            assert(!after.contains_key(k));
            assert(!before.contains_key(k));
            assert(missing_set(required, before.dom(), baseline).contains(k));
            assert(stubs.to_set().contains(k));
            assert(stubs.contains(k));
        }
    }
    assert(left =~= Set::<Seq<char>>::empty());
}

} // verus!
