//! Reading the tensors of a safetensors file out of its bytes.
//!
//! The file format is the business of the `safetensors` crate. A file is eight
//! bytes that give the length of a JSON header (little-endian), the header, and
//! the tensors' data.

use crate::model::ModelLoadError;
use crate::tensor::{Tensor, TensorContents, TensorMap};
use safetensors::tensor::Metadata;
use safetensors::{Dtype, SafeTensorError, SafeTensors};
use vstd::prelude::*;

verus! {

/// Why the bytes are not a safetensors file, `safetensors::SafeTensorError`.
#[verifier::external_type_specification]
#[verifier::external_body]
pub struct ExSafeTensorError(SafeTensorError);

/// A parsed file that borrows its bytes, `safetensors::SafeTensors`.
#[verifier::external_type_specification]
#[verifier::external_body]
pub struct ExSafeTensors<'data>(SafeTensors<'data>);

/// Why a file could not be read, `std::io::Error`.
#[verifier::external_type_specification]
#[verifier::external_body]
pub struct ExIoError(std::io::Error);

/// Bytes of the header length.
pub const LENGTH_BYTES: usize = 8;

/// The longest header that `safetensors` takes.
pub const MAX_HEADER_BYTES: u64 = 100_000_000;

/// A tensor as a file gives it: name, shape, element type, bytes.
pub type TensorEntry = (String, Vec<usize>, Dtype, Vec<u8>);

/// The header of a file, where its length is one that `safetensors` takes.
pub open spec fn header(bytes: Seq<u8>) -> Option<Seq<u8>> {
    if bytes.len() < LENGTH_BYTES {
        None
    } else {
        let n = vstd::bytes::spec_u64_from_le_bytes(bytes.subrange(0, LENGTH_BYTES as int));
        if n <= MAX_HEADER_BYTES && LENGTH_BYTES + n <= bytes.len() {
            Some(bytes.subrange(LENGTH_BYTES as int, LENGTH_BYTES + n))
        } else {
            None
        }
    }
}

/// The number of data bytes that a header declares, where it is a valid one:
/// `safetensors::tensor::Metadata::data_len` of the header read by
/// `serde_json::from_slice`.
pub uninterp spec fn declared_data_len(header: Seq<u8>) -> Option<usize>;

/// The tensors of a file by name, where its bytes are a valid file: what
/// `safetensors::SafeTensors::deserialize` makes of them.
pub uninterp spec fn parsed_tensors(bytes: Seq<u8>) -> Option<Map<Seq<char>, TensorContents>>;

/// The tensors that a parsed file holds, by name.
pub uninterp spec fn stored_tensors(file: SafeTensors<'_>) -> Map<Seq<char>, TensorContents>;

/// The length of the file that the header declares is a `usize`.
pub open spec fn file_len_fits(bytes: Seq<u8>) -> bool {
    header(bytes) matches Some(h) ==> (declared_data_len(h) matches Some(len) ==> len + LENGTH_BYTES
        + h.len() <= usize::MAX)
}

/// The tensors that `entries` give, a later one in place of an earlier one of
/// the same name.
pub open spec fn entry_contents(entries: Seq<TensorEntry>) -> Map<Seq<char>, TensorContents>
    decreases entries.len(),
{
    if entries.len() == 0 {
        Map::empty()
    } else {
        let e = entries.last();
        entry_contents(entries.drop_last()).insert(e.0@, (e.1@, e.2, e.3@))
    }
}

/// Reads the header with `serde_json::from_slice` and asks
/// `safetensors::tensor::Metadata::data_len` how many bytes of data it
/// declares; none if the header is not valid. Claims only that the header
/// alone decides, for a given width of `usize`.
#[verifier::external_body]
fn read_declared_data_len(header: &[u8]) -> (r: Option<usize>)
    ensures
        r == declared_data_len(header@),
{
    match serde_json::from_slice::<Metadata>(header) {
        Ok(metadata) => Some(metadata.data_len()),
        Err(_) => None,
    }
}

/// Parses a file with `safetensors::SafeTensors::deserialize`. Claims that the
/// bytes alone decide, for a given width of `usize`, whether they are a valid
/// file and which tensors it holds. Which error an invalid file gives is left
/// unsaid: where several tensors are at fault, it depends on the order in which
/// a hash map is walked. The call adds up the length that the header declares,
/// so that length has to fit.
#[verifier::external_body]
fn deserialize<'a>(bytes: &'a [u8]) -> (r: Result<SafeTensors<'a>, SafeTensorError>)
    requires
        file_len_fits(bytes@),
    ensures
        match r {
            Ok(file) => parsed_tensors(bytes@) == Some(stored_tensors(file)),
            Err(_) => parsed_tensors(bytes@) is None,
        },
{
    SafeTensors::deserialize(bytes)
}

/// `e` is an error that parsing `bytes` gives: [`deserialize`] can return it.
pub closed spec fn is_parse_error(bytes: Seq<u8>, e: SafeTensorError) -> bool {
    exists|b: &[u8]| b@ == bytes && #[trigger] call_ensures(deserialize, (b,), Err(e))
}

/// Lists the tensors of a parsed file, `safetensors::SafeTensors::tensors`,
/// with each view's `shape`, `dtype` and `data` copied out. Claims that every
/// tensor of the file is listed once, with its contents; the order is that of
/// a hash map and left unsaid.
#[verifier::external_body]
fn list_tensors(file: &SafeTensors<'_>) -> (r: Vec<TensorEntry>)
    ensures
        forall|i: int|
            0 <= i < r@.len() ==> stored_tensors(*file).contains_key((#[trigger] r@[i]).0@)
                && stored_tensors(*file)[r@[i].0@] == (r@[i].1@, r@[i].2, r@[i].3@),
        forall|name: Seq<char>| #[trigger]
            stored_tensors(*file).contains_key(name) ==> exists|i: int|
                0 <= i < r@.len() && (#[trigger] r@[i]).0@ == name,
        forall|i: int, j: int|
            0 <= i < j < r@.len() ==> (#[trigger] r@[i]).0@ != (#[trigger] r@[j]).0@,
{
    file.tensors()
        .into_iter()
        .map(|(name, view)| (name, view.shape().to_vec(), view.dtype(), view.data().to_vec()))
        .collect()
}

/// Some entry goes by `name`.
spec fn has_entry(entries: Seq<TensorEntry>, name: Seq<char>) -> bool {
    exists|i: int| 0 <= i < entries.len() && (#[trigger] entries[i]).0@ == name
}

/// The entries' tensors go by the entries' names, and the last entry of a name
/// is the one that counts.
proof fn lemma_entry_contents(entries: Seq<TensorEntry>)
    ensures
        forall|name: Seq<char>| #[trigger]
            entry_contents(entries).contains_key(name) <==> has_entry(entries, name),
        forall|i: int|
            0 <= i < entries.len() && (forall|j: int|
                i < j < entries.len() ==> (#[trigger] entries[j]).0@ != entries[i].0@)
                ==> entry_contents(entries)[(#[trigger] entries[i]).0@] == (
                entries[i].1@,
                entries[i].2,
                entries[i].3@,
            ),
    decreases entries.len(),
{
    if entries.len() > 0 {
        let init = entries.drop_last();
        let n = init.len() as int;
        lemma_entry_contents(init);
        assert(entries.last() == entries[n]);
        assert forall|name: Seq<char>| #[trigger]
            entry_contents(entries).contains_key(name) <==> has_entry(entries, name) by {
            assert(entry_contents(init).contains_key(name) <==> has_entry(init, name));
            if has_entry(init, name) {
                let i = choose|i: int| 0 <= i < init.len() && (#[trigger] init[i]).0@ == name;
                assert(entries[i].0@ == name);
            }
            if has_entry(entries, name) {
                let i = choose|i: int|
                    0 <= i < entries.len() && (#[trigger] entries[i]).0@ == name;
                if i < n {
                    assert(init[i].0@ == name);
                }
            }
        }
        assert forall|i: int|
            0 <= i < entries.len() && (forall|j: int|
                i < j < entries.len() ==> (#[trigger] entries[j]).0@
                    != entries[i].0@) implies entry_contents(entries)[(#[trigger] entries[i]).0@]
            == (entries[i].1@, entries[i].2, entries[i].3@) by {
            if i < n {
                assert(init[i] == entries[i]);
                assert(entries[n].0@ != entries[i].0@);
                assert forall|j: int| i < j < init.len() implies (#[trigger] init[j]).0@
                    != init[i].0@ by {
                    assert(entries[j].0@ != entries[i].0@);
                }
            }
        }
    }
}

/// Entries that all come from `m` give the part of `m` that they name.
proof fn lemma_entries_from(entries: Seq<TensorEntry>, m: Map<Seq<char>, TensorContents>)
    requires
        forall|i: int|
            0 <= i < entries.len() ==> m.contains_key((#[trigger] entries[i]).0@)
                && m[entries[i].0@] == (entries[i].1@, entries[i].2, entries[i].3@),
    ensures
        forall|name: Seq<char>| #[trigger]
            entry_contents(entries).contains_key(name) <==> has_entry(entries, name),
        forall|name: Seq<char>| #[trigger]
            entry_contents(entries).contains_key(name) ==> m.contains_key(name)
                && entry_contents(entries)[name] == m[name],
    decreases entries.len(),
{
    if entries.len() > 0 {
        let init = entries.drop_last();
        assert forall|i: int| 0 <= i < init.len() implies m.contains_key((#[trigger] init[i]).0@)
            && m[init[i].0@] == (init[i].1@, init[i].2, init[i].3@) by {
            assert(init[i] == entries[i]);
        }
        lemma_entries_from(init, m);
        assert(entries.last() == entries[entries.len() - 1]);
        assert forall|name: Seq<char>| #[trigger]
            entry_contents(entries).contains_key(name) <==> has_entry(entries, name) by {
            assert(entry_contents(init).contains_key(name) <==> has_entry(init, name));
            if has_entry(init, name) {
                let i = choose|i: int| 0 <= i < init.len() && (#[trigger] init[i]).0@ == name;
                assert(entries[i].0@ == name);
            }
            if has_entry(entries, name) {
                let i = choose|i: int|
                    0 <= i < entries.len() && (#[trigger] entries[i]).0@ == name;
                if i < init.len() {
                    assert(init[i].0@ == name);
                }
            }
        }
        assert forall|name: Seq<char>| #[trigger]
            entry_contents(entries).contains_key(name) implies m.contains_key(name)
            && entry_contents(entries)[name] == m[name] by {
            if name != entries.last().0@ {
                assert(entry_contents(init).contains_key(name));
            }
        }
    }
}

/// Of the entries of one name the last one counts, and only names of entries
/// are there.
pub proof fn last_entry_of_a_name_counts(entries: Seq<TensorEntry>, name: Seq<char>)
    ensures
        entry_contents(entries).contains_key(name) <==> exists|i: int|
            0 <= i < entries.len() && (#[trigger] entries[i]).0@ == name,
        forall|i: int|
            0 <= i < entries.len() && (#[trigger] entries[i]).0@ == name && (forall|j: int|
                i < j < entries.len() ==> (#[trigger] entries[j]).0@ != name) ==> {
                &&& entry_contents(entries)[name].0 == entries[i].1@
                &&& entry_contents(entries)[name].1 == entries[i].2
                &&& entry_contents(entries)[name].2 == entries[i].3@
            },
{
    lemma_entry_contents(entries);
    assert(entry_contents(entries).contains_key(name) <==> has_entry(entries, name));
}

/// The header stands behind eight bytes that give its length, the lowest byte
/// first. It is there if it is at most 100,000,000 bytes long and ends within
/// the file.
pub proof fn header_follows_its_length(bytes: Seq<u8>)
    ensures
        ({
            let n = vstd::bytes::spec_u64_from_le_bytes(bytes.subrange(0, 8));
            &&& header(bytes) is Some <==> bytes.len() >= 8 && n <= 100_000_000 && 8 + n
                <= bytes.len()
            &&& header(bytes) matches Some(h) ==> h == bytes.subrange(8, 8 + n) && h.len() == n
        }),
{
}

/// The length of a file is out of range when the header is there, declares a
/// length, and eight, the header's length and the declared length add up to
/// more than a `usize` holds; in no other case.
pub proof fn file_len_is_header_and_data(bytes: Seq<u8>)
    ensures
        !file_len_fits(bytes) <==> (header(bytes) matches Some(h) && (declared_data_len(
            h,
        ) matches Some(len) && 8 + h.len() + len > usize::MAX)),
{
}

/// An error that parsing gives came from [`deserialize`] on the same bytes.
proof fn parse_error_is_of_these_bytes(bytes: Seq<u8>, e: SafeTensorError)
    ensures
        is_parse_error(bytes, e) <==> exists|b: &[u8]|
            b@ == bytes && #[trigger] call_ensures(deserialize, (b,), Err(e)),
{
}

/// Puts the tensors that a file gives into a map under their names.
pub fn collect_tensors(entries: Vec<TensorEntry>) -> (r: TensorMap)
    ensures
        r.wf(),
        r.contents() == entry_contents(entries@),
        forall|name: Seq<char>| #[trigger]
            r@.contains_key(name) <==> exists|i: int|
                0 <= i < entries@.len() && (#[trigger] entries@[i]).0@ == name,
        forall|i: int|
            0 <= i < entries@.len() && (forall|j: int|
                i < j < entries@.len() ==> (#[trigger] entries@[j]).0@ != entries@[i].0@) ==> {
                let t = r@[(#[trigger] entries@[i]).0@];
                &&& t.shape@ == entries@[i].1@
                &&& t.dtype == entries@[i].2
                &&& t.data@ == entries@[i].3@
            },
{
    let mut map = TensorMap::new();
    let ghost all = entries@;
    assert(all.take(0) =~= Seq::empty());
    assert(map.contents() =~= entry_contents(all.take(0)));
    for entry in it: entries
        invariant
            it.seq() == all,
            map.wf(),
            map.contents() == entry_contents(all.take(it.index())),
    {
        let ghost k = it.index();
        let ghost before = map;
        let (name, shape, dtype, data) = entry;
        let ghost key = name@;
        let tensor = Tensor { shape, dtype, data };
        map.insert(name, tensor);
        assert(all.take(k + 1).drop_last() =~= all.take(k));
        assert(map.contents() =~= before.contents().insert(key, tensor@));
    }
    assert(all.take(all.len() as int) =~= all);
    proof {
        map.contents_by_name();
        lemma_entry_contents(all);
        assert forall|name: Seq<char>| #[trigger] map@.contains_key(name) <==> exists|i: int|
            0 <= i < all.len() && (#[trigger] all[i]).0@ == name by {
            assert(map.contents().contains_key(name) <==> has_entry(all, name));
        }
        assert forall|i: int|
            0 <= i < all.len() && (forall|j: int|
                i < j < all.len() ==> (#[trigger] all[j]).0@ != all[i].0@) implies {
            let t = map@[(#[trigger] all[i]).0@];
            &&& t.shape@ == all[i].1@
            &&& t.dtype == all[i].2
            &&& t.data@ == all[i].3@
        } by {
            assert(has_entry(all, all[i].0@));
            assert(map.contents().contains_key(all[i].0@));
        }
    }
    map
}

/// The header of a file, where its length is one that `safetensors` takes.
pub fn find_header(bytes: &[u8]) -> (r: Option<&[u8]>)
    ensures
        match r {
            Some(h) => header(bytes@) == Some(h@),
            None => header(bytes@) is None,
        },
        ({
            let n = vstd::bytes::spec_u64_from_le_bytes(bytes@.subrange(0, 8));
            &&& r is Some <==> bytes@.len() >= 8 && n <= 100_000_000 && 8 + n <= bytes@.len()
            &&& r matches Some(h) ==> h@ == bytes@.subrange(8, 8 + n)
        }),
{
    if bytes.len() < LENGTH_BYTES {
        return None;
    }
    let n: u64 = vstd::bytes::u64_from_le_bytes(
        vstd::slice::slice_subrange(bytes, 0, LENGTH_BYTES),
    );
    if n > MAX_HEADER_BYTES {
        return None;
    }
    let n: usize = n as usize;
    if n > bytes.len() - LENGTH_BYTES {
        return None;
    }
    Some(vstd::slice::slice_subrange(bytes, LENGTH_BYTES, LENGTH_BYTES + n))
}

/// Whether a file with a header of `header_len` bytes that declares `declared`
/// bytes of data has a length that is a `usize`. A header that declares nothing
/// gives no length to add up.
pub fn declared_len_fits(declared: Option<usize>, header_len: usize) -> (r: bool)
    requires
        LENGTH_BYTES + header_len <= usize::MAX,
    ensures
        r == (declared matches Some(len) ==> len + LENGTH_BYTES + header_len <= usize::MAX),
        !r <==> (declared matches Some(len) && 8 + header_len + len > usize::MAX),
{
    match declared {
        Some(len) => len <= usize::MAX - LENGTH_BYTES - header_len,
        None => true,
    }
}

/// Whether the length of the file that the header of `bytes` declares is a
/// `usize`.
fn check_file_len(bytes: &[u8]) -> (r: bool)
    ensures
        r == file_len_fits(bytes@),
{
    match find_header(bytes) {
        Some(header) => {
            assert(LENGTH_BYTES + header@.len() <= bytes.len());
            declared_len_fits(read_declared_data_len(header), header.len())
        },
        None => true,
    }
}

/// The tensors of a file from what parsing it gave: those that the parsed file
/// holds, or the parser's error as it came.
pub fn finish_parse(parsed: Result<SafeTensors<'_>, SafeTensorError>) -> (r: Result<
    TensorMap,
    ModelLoadError,
>)
    ensures
        match parsed {
            Ok(file) => r matches Ok(tensors) && tensors.wf() && tensors.contents()
                == stored_tensors(file),
            Err(e) => r == Err::<TensorMap, ModelLoadError>(ModelLoadError::Parse(e)),
        },
        r is Ok <==> parsed is Ok,
        parsed matches Ok(file) ==> (r matches Ok(tensors) ==> {
            &&& forall|name: Seq<char>| #[trigger]
                tensors@.contains_key(name) <==> stored_tensors(file).contains_key(name)
            &&& forall|name: Seq<char>| #[trigger]
                tensors@.contains_key(name) ==> {
                    &&& tensors@[name].shape@ == stored_tensors(file)[name].0
                    &&& tensors@[name].dtype == stored_tensors(file)[name].1
                    &&& tensors@[name].data@ == stored_tensors(file)[name].2
                }
        }),
{
    match parsed {
        Ok(file) => {
            let entries = list_tensors(&file);
            let ghost listed = entries@;
            let tensors = collect_tensors(entries);
            proof {
                lemma_entries_from(listed, stored_tensors(file));
                assert forall|name: Seq<char>| stored_tensors(
                    file,
                ).contains_key(name) implies entry_contents(listed).contains_key(name) by {
                    assert(has_entry(listed, name));
                }
                assert(entry_contents(listed) =~= stored_tensors(file));
                tensors.contents_by_name();
            }
            Ok(tensors)
        },
        Err(e) => Err(ModelLoadError::from(e)),
    }
}

/// The tensors of a safetensors file, from the file's bytes.
pub fn parse_safetensors(bytes: &[u8]) -> (r: Result<TensorMap, ModelLoadError>)
    requires
        file_len_fits(bytes@),
    ensures
        r is Ok <==> parsed_tensors(bytes@) is Some,
        r matches Ok(tensors) ==> {
            let stored = parsed_tensors(bytes@)->0;
            &&& forall|name: Seq<char>| #[trigger]
                tensors@.contains_key(name) <==> stored.contains_key(name)
            &&& forall|name: Seq<char>| #[trigger]
                tensors@.contains_key(name) ==> {
                    &&& tensors@[name].shape@ == stored[name].0
                    &&& tensors@[name].dtype == stored[name].1
                    &&& tensors@[name].data@ == stored[name].2
                }
        },
        match r {
            Ok(tensors) => tensors.wf() && parsed_tensors(bytes@) == Some(tensors.contents()),
            Err(ModelLoadError::Parse(e)) => parsed_tensors(bytes@) is None && is_parse_error(
                bytes@,
                e,
            ),
            Err(_) => false,
        },
{
    let parsed = deserialize(bytes);
    proof {
        if parsed is Err {
            parse_error_is_of_these_bytes(bytes@, parsed->Err_0);
        }
    }
    finish_parse(parsed)
}

/// Every tensor of a safetensors file by its name in the file, from what
/// reading the file gave.
pub fn load_safetensors(read: Result<Vec<u8>, std::io::Error>) -> (r: Result<
    TensorMap,
    ModelLoadError,
>)
    ensures
        match read {
            Err(e) => r == Err::<TensorMap, ModelLoadError>(ModelLoadError::Io(e)),
            Ok(bytes) => match r {
                Ok(tensors) => file_len_fits(bytes@) && tensors.wf() && parsed_tensors(bytes@)
                    == Some(tensors.contents()),
                Err(ModelLoadError::FileLengthOverflow) => !file_len_fits(bytes@),
                Err(ModelLoadError::Parse(e)) => file_len_fits(bytes@) && parsed_tensors(
                    bytes@,
                ) is None && is_parse_error(bytes@, e),
                Err(_) => false,
            },
        },
        read matches Ok(bytes) ==> {
            let n = vstd::bytes::spec_u64_from_le_bytes(bytes@.subrange(0, 8));
            let declared = declared_data_len(bytes@.subrange(8, 8 + n));
            let past_the_end = bytes@.len() >= 8 && n <= 100_000_000 && 8 + n <= bytes@.len() && (
            declared matches Some(len) && len + 8 + n > usize::MAX);
            &&& (r matches Err(ModelLoadError::FileLengthOverflow)) <==> past_the_end
            &&& r is Ok <==> !past_the_end && parsed_tensors(bytes@) is Some
        },
        read matches Ok(bytes) ==> (r matches Ok(tensors) ==> {
            let stored = parsed_tensors(bytes@)->0;
            &&& forall|name: Seq<char>| #[trigger]
                tensors@.contains_key(name) <==> stored.contains_key(name)
            &&& forall|name: Seq<char>| #[trigger]
                tensors@.contains_key(name) ==> {
                    &&& tensors@[name].shape@ == stored[name].0
                    &&& tensors@[name].dtype == stored[name].1
                    &&& tensors@[name].data@ == stored[name].2
                }
        }),
{
    match read {
        Ok(bytes) => {
            if check_file_len(bytes.as_slice()) {
                parse_safetensors(bytes.as_slice())
            } else {
                Err(ModelLoadError::FileLengthOverflow)
            }
        },
        Err(e) => Err(ModelLoadError::from(e)),
    }
}

} // verus!
