//! Directory indexes: walking the entries of an `$INDEX_ROOT` value.

use vstd::prelude::*;
use crate::bytes::{le16, le32, le64, read_u16_le, read_u32_le, read_u64_le};
use crate::ntfs::{NtfsError, NtfsFile};
use crate::blockdev::{splice, unchanged_outside, BlockDevice};
use crate::ntfs::driver::{has_room, index_header_offset, insert_ok, NtfsDriver};
use crate::ntfs::write::{entry_inserted, index_entry_len, utf16_units};
use crate::ntfs::attr::reapply_fixups_spec;
use crate::ntfs::attr::{filename_at, parse_filename_from_key};

verus! {

/// An index entry's flags word has its LAST_ENTRY bit set.
pub open spec fn is_last_entry(flags: int) -> bool {
    (flags / 2) % 2 == 1
}

/// The name and parent held in the key of the entry at `offset`, when the
/// key is present, lies inside the index and parses.
pub open spec fn entry_key_name(d: Seq<u8>, offset: int) -> Option<(Seq<char>, u64)> {
    let key_len = le16(d, offset + 10);
    if key_len > 0 && offset + 0x10 + key_len <= d.len() {
        filename_at(d.subrange(offset + 0x10, offset + 0x10 + key_len), 0)
    } else {
        None
    }
}

/// Whether the walk has an entry header at `offset`: one that lies within
/// both the index's declared size and its bytes.
pub open spec fn entry_present(d: Seq<u8>, total: int, offset: int) -> bool {
    offset + 0x12 <= total && offset + 0x12 <= d.len() && !is_last_entry(le16(d, offset + 12))
}

/// The names of the entries from `offset` on, in index order; the walk ends
/// at the LAST_ENTRY flag, at a zero entry length, or at the end of the index.
pub open spec fn index_names_from(d: Seq<u8>, total: int, offset: int) -> Seq<Seq<char>>
    decreases d.len() - offset,
{
    if offset < 0 || !entry_present(d, total, offset) {
        Seq::empty()
    } else {
        let here = match entry_key_name(d, offset) {
            Some((n, _)) => seq![n],
            None => Seq::empty(),
        };
        let entry_len = le16(d, offset + 8);
        if entry_len == 0 || offset + entry_len > d.len() {
            here
        } else {
            here + index_names_from(d, total, offset + entry_len)
        }
    }
}

/// The names listed in an index node: its header gives the offset of the
/// first entry and the total size of the entries, both from the header's
/// start, in its first eight bytes.
pub open spec fn node_names(n: Seq<u8>) -> Seq<Seq<char>> {
    if n.len() < 16 {
        Seq::empty()
    } else {
        index_names_from(n, le32(n, 4), le32(n, 0))
    }
}

/// The names listed in an `$INDEX_ROOT` value: its 16-byte root header is
/// followed by the index node header and the entries.
pub open spec fn index_names(d: Seq<u8>) -> Seq<Seq<char>> {
    if d.len() < 16 {
        Seq::empty()
    } else {
        node_names(d.subrange(16, d.len() as int))
    }
}

/// A character as `to_ascii_lowercase` leaves it, by code point.
pub open spec fn ascii_fold(c: char) -> u32 {
    if 65 <= (c as u32) <= 90 {
        ((c as u32) + 32) as u32
    } else {
        c as u32
    }
}

/// Two names equal up to ASCII case.
pub open spec fn eq_ignore_ascii_case(a: Seq<char>, b: Seq<char>) -> bool {
    a.len() == b.len() && forall|i: int| 0 <= i < a.len() ==> ascii_fold(#[trigger] a[i]) == ascii_fold(b[i])
}

/// An MFT reference with its sequence number masked off: the low 48 bits.
pub open spec fn record_of_reference(r: int) -> u64 {
    (r % 0x1_0000_0000_0000) as u64
}

/// The record number of the first entry from `offset` on whose name equals
/// `name` up to ASCII case.
pub open spec fn index_find_from(d: Seq<u8>, total: int, offset: int, name: Seq<char>) -> Option<u64>
    decreases d.len() - offset,
{
    if offset < 0 || !entry_present(d, total, offset) {
        None
    } else {
        let entry_len = le16(d, offset + 8);
        if entry_key_name(d, offset) matches Some((n, _)) && eq_ignore_ascii_case(n, name) {
            Some(record_of_reference(le64(d, offset)))
        } else if entry_len == 0 || offset + entry_len > d.len() {
            None
        } else {
            index_find_from(d, total, offset + entry_len, name)
        }
    }
}

/// The record number that an index node gives for `name`.
pub open spec fn node_find(n: Seq<u8>, name: Seq<char>) -> Option<u64> {
    if n.len() < 16 {
        None
    } else {
        index_find_from(n, le32(n, 4), le32(n, 0), name)
    }
}

/// The record number that an `$INDEX_ROOT` value gives for `name`: the
/// index node follows the 16-byte root header.
pub open spec fn index_find(d: Seq<u8>, name: Seq<char>) -> Option<u64> {
    if d.len() < 16 {
        None
    } else {
        node_find(d.subrange(16, d.len() as int), name)
    }
}

/// The entry at `offset` is a real entry of the walk whose key names `m`,
/// a name as long as `name` that equals it up to ASCII case, and whose
/// reference is to record `n`.
pub open spec fn entry_names_record(d: Seq<u8>, total: int, offset: int, name: Seq<char>, n: u64) -> bool {
    &&& entry_present(d, total, offset)
    &&& entry_key_name(d, offset) matches Some((m, _))
    &&& m.len() == name.len()
    &&& forall|i: int| 0 <= i < m.len() ==> ascii_fold(#[trigger] m[i]) == ascii_fold(name[i])
    &&& record_of_reference(le64(d, offset)) == n
}

/// Law of lookup against the entries: when the walk from `offset` finds
/// `name`, some entry at or after `offset` has a name of exactly the same
/// length that folds to it character by character, and the record found
/// is that entry's.
pub proof fn lemma_index_find_from_entry(d: Seq<u8>, total: int, offset: int, name: Seq<char>) -> (o: int)
    ensures
        index_find_from(d, total, offset, name) is Some ==> offset <= o
            && entry_names_record(d, total, o, name, index_find_from(d, total, offset, name)->Some_0),
    decreases d.len() - offset,
{
    if offset >= 0 && entry_present(d, total, offset) {
        let entry_len = le16(d, offset + 8);
        if entry_key_name(d, offset) is Some && eq_ignore_ascii_case(entry_key_name(d, offset)->Some_0.0, name) {
            let m = entry_key_name(d, offset)->Some_0.0;
            assert(m.len() == name.len());
            offset
        } else if entry_len != 0 && offset + entry_len <= d.len() {
            lemma_index_find_from_entry(d, total, offset + entry_len, name)
        } else {
            offset
        }
    } else {
        offset
    }
}

/// Law of listing against lookup: every name that the walk from `offset`
/// finds is among the names listed from `offset`, so listing goes on past
/// named entries to every entry that lookup reaches.
pub proof fn lemma_index_find_from_listed(d: Seq<u8>, total: int, offset: int, name: Seq<char>)
    ensures
        index_find_from(d, total, offset, name) is Some ==> exists|j: int| 0 <= j < index_names_from(d, total, offset).len()
            && eq_ignore_ascii_case(#[trigger] index_names_from(d, total, offset)[j], name),
    decreases d.len() - offset,
{
    if offset >= 0 && entry_present(d, total, offset) {
        let entry_len = le16(d, offset + 8);
        let here = match entry_key_name(d, offset) {
            Some((m, _)) => seq![m],
            None => Seq::<Seq<char>>::empty(),
        };
        if entry_key_name(d, offset) is Some && eq_ignore_ascii_case(entry_key_name(d, offset)->Some_0.0, name) {
            let m = entry_key_name(d, offset)->Some_0.0;
            assert(index_names_from(d, total, offset)[0] == m);
        } else if entry_len != 0 && offset + entry_len <= d.len() {
            lemma_index_find_from_listed(d, total, offset + entry_len, name);
            let rest = index_names_from(d, total, offset + entry_len);
            assert(index_names_from(d, total, offset) == here + rest);
            if index_find_from(d, total, offset, name) is Some {
                let j = choose|j: int| 0 <= j < rest.len() && eq_ignore_ascii_case(#[trigger] rest[j], name);
                assert((here + rest)[here.len() + j] == rest[j]);
            }
        }
    }
}

/// Law of listing in order and against lookup: a walk that starts at a
/// named entry lists that entry's name first, and every name listed from
/// `offset` is found again by a lookup from `offset`.
pub proof fn lemma_index_listed_found(d: Seq<u8>, total: int, offset: int)
    ensures
        offset >= 0 && entry_present(d, total, offset) && entry_key_name(d, offset) is Some ==> {
            &&& index_names_from(d, total, offset).len() > 0
            &&& index_names_from(d, total, offset)[0] == entry_key_name(d, offset)->Some_0.0
        },
        forall|j: int| 0 <= j < index_names_from(d, total, offset).len()
            ==> (#[trigger] index_find_from(d, total, offset, index_names_from(d, total, offset)[j])) is Some,
    decreases d.len() - offset,
{
    if offset >= 0 && entry_present(d, total, offset) {
        let entry_len = le16(d, offset + 8);
        let here = match entry_key_name(d, offset) {
            Some((m, _)) => seq![m],
            None => Seq::<Seq<char>>::empty(),
        };
        let rest = if entry_len == 0 || offset + entry_len > d.len() {
            Seq::<Seq<char>>::empty()
        } else {
            index_names_from(d, total, offset + entry_len)
        };
        let names = index_names_from(d, total, offset);
        assert(names == here + rest);
        if entry_len != 0 && offset + entry_len <= d.len() {
            lemma_index_listed_found(d, total, offset + entry_len);
        }
        assert forall|j: int| 0 <= j < names.len() implies (#[trigger] index_find_from(d, total, offset, names[j])) is Some by {
            let nm = names[j];
            if entry_key_name(d, offset) is Some && eq_ignore_ascii_case(entry_key_name(d, offset)->Some_0.0, nm) {
            } else if j < here.len() {
                assert(nm == entry_key_name(d, offset)->Some_0.0);
                assert(eq_ignore_ascii_case(nm, nm));
            } else {
                assert(nm == rest[j - here.len()]);
                assert(index_find_from(d, total, offset + entry_len, rest[j - here.len()]) is Some);
            }
        }
    }
}

/// Two names match up to ASCII case exactly when they have the same length
/// and, position by position, the characters are equal or are the upper-
/// and lower-case forms of one ASCII letter.
pub proof fn lemma_case_match_chars(a: Seq<char>, b: Seq<char>)
    ensures
        eq_ignore_ascii_case(a, b) <==> (a.len() == b.len()
            && forall|i: int| 0 <= i < a.len() ==> #[trigger] same_letter_ignoring_case(a[i], b[i])),
{
    if eq_ignore_ascii_case(a, b) {
        assert forall|i: int| 0 <= i < a.len() implies #[trigger] same_letter_ignoring_case(a[i], b[i]) by {
            lemma_fold_same_letter(a[i], b[i]);
        }
    }
    if a.len() == b.len() && forall|i: int| 0 <= i < a.len() ==> #[trigger] same_letter_ignoring_case(a[i], b[i]) {
        assert forall|i: int| 0 <= i < a.len() implies ascii_fold(#[trigger] a[i]) == ascii_fold(b[i]) by {
            assert(same_letter_ignoring_case(a[i], b[i]));
            lemma_fold_same_letter(a[i], b[i]);
        }
    }
}

/// `x` and `y` are the same character, or the two cases of one ASCII letter.
pub open spec fn same_letter_ignoring_case(x: char, y: char) -> bool {
    ||| x == y
    ||| ('A' <= x <= 'Z' && (y as u32) == (x as u32) + 32)
    ||| ('A' <= y <= 'Z' && (x as u32) == (y as u32) + 32)
}

proof fn lemma_fold_same_letter(x: char, y: char)
    ensures
        ascii_fold(x) == ascii_fold(y) <==> same_letter_ignoring_case(x, y),
{
    assert((x as u32) == (y as u32) ==> x == y);
}

/// Law of lookup in an `$INDEX_ROOT` value: a name is found only in an
/// entry of the node whose name has the same length and equals it up to
/// ASCII case, the record found being that entry's; and every name found
/// is listed.
pub proof fn lemma_index_find_matches_listing(d: Seq<u8>, name: Seq<char>)
    ensures
        index_find(d, name) is Some ==> exists|o: int|
            #[trigger] entry_names_record(d.subrange(16, d.len() as int), le32(d.subrange(16, d.len() as int), 4), o, name,
                index_find(d, name)->Some_0),
        index_find(d, name) is Some ==> exists|j: int| 0 <= j < index_names(d).len()
            && eq_ignore_ascii_case(#[trigger] index_names(d)[j], name),
{
    if d.len() >= 16 {
        let node = d.subrange(16, d.len() as int);
        if node.len() >= 16 {
            let total = le32(node, 4);
            let first = le32(node, 0);
            let o = lemma_index_find_from_entry(node, total, first, name);
            lemma_index_find_from_listed(node, total, first, name);
            assert(index_find(d, name) == index_find_from(node, total, first, name));
            assert(index_names(d) == index_names_from(node, total, first));
            if index_find(d, name) is Some {
                assert(entry_names_record(node, total, o, name, index_find(d, name)->Some_0));
            }
            if index_find(d, name) is Some {
                let j = choose|j: int| 0 <= j < index_names_from(node, total, first).len()
                    && eq_ignore_ascii_case(#[trigger] index_names_from(node, total, first)[j], name);
                assert(index_names(d)[j] == index_names_from(node, total, first)[j]);
            }
        }
    }
}

/// Two names equal up to ASCII case have the same length: a name never
/// matches a longer or shorter one.
pub proof fn lemma_case_match_same_length(a: Seq<char>, b: Seq<char>)
    ensures
        eq_ignore_ascii_case(a, b) ==> a.len() == b.len(),
        eq_ignore_ascii_case(a, b) ==> forall|i: int| 0 <= i < a.len() ==> #[trigger] ascii_fold(a[i]) == ascii_fold(b[i]),
{
}

/// The names of a list of strings, by value.
pub open spec fn names_view(v: Seq<String>) -> Seq<Seq<char>> {
    v.map_values(|s: String| s@)
}

fn ascii_fold_code(c: char) -> (r: u32)
    ensures
        r == ascii_fold(c),
{
    let u = c as u32;
    if 65 <= u && u <= 90 {
        u + 32
    } else {
        u
    }
}

/// Compare two names up to ASCII case, character by character.
fn names_equal_ignoring_case(a: &str, b: &str) -> (r: bool)
    ensures
        r == eq_ignore_ascii_case(a@, b@),
{
    let n = a.unicode_len();
    if n != b.unicode_len() {
        return false;
    }
    let mut i: usize = 0;
    while i < n
        invariant
            i <= n,
            n == a@.len(),
            n == b@.len(),
            forall|k: int| 0 <= k < i ==> ascii_fold(#[trigger] a@[k]) == ascii_fold(b@[k]),
        decreases n - i,
    {
        if ascii_fold_code(a.get_char(i)) != ascii_fold_code(b.get_char(i)) {
            return false;
        }
        i = i + 1;
    }
    true
}

proof fn lemma_last_flag(flags: u16)
    ensures
        (flags & 2 != 0) == is_last_entry(flags as int),
{
    assert((flags & 2 != 0) == ((flags / 2) % 2 == 1)) by (bit_vector);
}

/// The name in the key of the entry at `offset`.
fn entry_name(d: &[u8], offset: usize) -> (r: Option<(String, u64)>)
    requires
        offset + 0x12 <= d@.len(),
    ensures
        match r {
            Some((n, p)) => entry_key_name(d@, offset as int) == Some((n@, p)),
            None => entry_key_name(d@, offset as int) is None,
        },
{
    let len = d.len();
    let key_len = read_u16_le(d, offset + 10) as usize;
    if key_len > 0 && key_len <= len - offset - 0x10 {
        let key = &d[offset + 0x10..offset + 0x10 + key_len];
        parse_filename_from_key(key)
    } else {
        None
    }
}

/// Walk an index node and return all filenames.
fn list_from_node(index_data: &[u8]) -> (r: Result<Vec<String>, NtfsError>)
    ensures
        r matches Ok(names) && names_view(names@) == node_names(index_data@),
{
    let mut result: Vec<String> = Vec::new();
    let len = index_data.len();
    if len < 16 {
        assert(names_view(result@) =~= Seq::<Seq<char>>::empty());
        return Ok(result);
    }
    let ghost d = index_data@;
    let first_entry = read_u32_le(index_data, 0) as usize;
    let total_size = read_u32_le(index_data, 4) as usize;
    let mut offset = first_entry;
    loop
        invariant
            len == d.len(),
            d == index_data@,
            d.len() >= 16,
            total_size == le32(d, 4),
            names_view(result@) + index_names_from(d, total_size as int, offset as int) == node_names(d),
        decreases len - offset,
    {
        let ghost before = names_view(result@);
        if offset > total_size || total_size - offset < 0x12 || offset > len || len - offset < 0x12 {
            assert(before + Seq::<Seq<char>>::empty() =~= before);
            return Ok(result);
        }
        let entry_len = read_u16_le(index_data, offset + 8) as usize;
        let flags = read_u16_le(index_data, offset + 12);
        proof { lemma_last_flag(flags); }
        if flags & 0x0002 != 0 {
            assert(before + Seq::<Seq<char>>::empty() =~= before);
            return Ok(result);
        }
        let ghost rest = if entry_len == 0 || offset + entry_len > len {
            Seq::<Seq<char>>::empty()
        } else {
            index_names_from(d, total_size as int, offset + entry_len)
        };
        let ghost here = match entry_key_name(d, offset as int) {
            Some((n, _)) => seq![n],
            None => Seq::<Seq<char>>::empty(),
        };
        assert(index_names_from(d, total_size as int, offset as int) == here + rest);
        match entry_name(index_data, offset) {
            Some((name, _)) => {
                result.push(name);
            },
            None => {},
        }
        assert(names_view(result@) =~= before + here);
        assert(before + (here + rest) =~= (before + here) + rest);
        if entry_len == 0 {
            assert(names_view(result@) + Seq::<Seq<char>>::empty() =~= names_view(result@));
            return Ok(result);
        }
        if entry_len > len - offset {
            assert(names_view(result@) + Seq::<Seq<char>>::empty() =~= names_view(result@));
            return Ok(result);
        }
        offset = offset + entry_len;
    }
}

/// Search an index node for `name`, returning the MFT record number.
fn find_in_node(index_data: &[u8], name: &str) -> (r: Result<u64, NtfsError>)
    ensures
        r matches Ok(n) ==> node_find(index_data@, name@) == Some(n),
        r is Err ==> node_find(index_data@, name@) is None,
        r matches Err(e) ==> e == NtfsError::FileNotFound,
{
    let len = index_data.len();
    if len < 16 {
        return Err(NtfsError::FileNotFound);
    }
    let ghost d = index_data@;
    let first_entry = read_u32_le(index_data, 0) as usize;
    let total_size = read_u32_le(index_data, 4) as usize;
    let mut offset = first_entry;
    loop
        invariant
            len == d.len(),
            d == index_data@,
            d.len() >= 16,
            total_size == le32(d, 4),
            index_find_from(d, total_size as int, offset as int, name@) == node_find(d, name@),
        decreases len - offset,
    {
        if offset > total_size || total_size - offset < 0x12 || offset > len || len - offset < 0x12 {
            return Err(NtfsError::FileNotFound);
        }
        let file_ref = read_u64_le(index_data, offset);
        let entry_len = read_u16_le(index_data, offset + 8) as usize;
        let flags = read_u16_le(index_data, offset + 12);
        proof { lemma_last_flag(flags); }
        if flags & 0x0002 != 0 {
            return Err(NtfsError::FileNotFound);
        }
        match entry_name(index_data, offset) {
            Some((entry_name, _)) => {
                if names_equal_ignoring_case(entry_name.as_str(), name) {
                    assert(file_ref & 0x0000FFFFFFFFFFFF == file_ref % 0x1_0000_0000_0000) by (bit_vector);
                    return Ok(file_ref & 0x0000FFFFFFFFFFFF);
                }
            },
            None => {},
        }
        if entry_len == 0 {
            return Err(NtfsError::FileNotFound);
        }
        if entry_len > len - offset {
            return Err(NtfsError::FileNotFound);
        }
        offset = offset + entry_len;
    }
}

/// Walk the index of an `$INDEX_ROOT` value (root header, then the node
/// header and its entries) and return all filenames.
pub fn list_from_index(index_data: &[u8]) -> (r: Result<Vec<String>, NtfsError>)
    ensures
        r matches Ok(names) && names_view(names@) == index_names(index_data@),
{
    if index_data.len() < 16 {
        let v: Vec<String> = Vec::new();
        assert(names_view(v@) =~= Seq::<Seq<char>>::empty());
        return Ok(v);
    }
    let node = slice_from(index_data, 16);
    list_from_node(node)
}

/// Search the index of an `$INDEX_ROOT` value for `name`, returning the
/// MFT record number.
pub fn find_in_directory_with_index(index_data: &[u8], name: &str) -> (r: Result<u64, NtfsError>)
    ensures
        r matches Ok(n) ==> index_find(index_data@, name@) == Some(n),
        r is Err ==> index_find(index_data@, name@) is None,
        r matches Err(e) ==> e == NtfsError::FileNotFound,
{
    if index_data.len() < 16 {
        return Err(NtfsError::FileNotFound);
    }
    let node = slice_from(index_data, 16);
    find_in_node(node, name)
}

/// The bytes of `s` from `start` on.
fn slice_from(s: &[u8], start: usize) -> (r: &[u8])
    requires
        start <= s@.len(),
    ensures
        r@ == s@.subrange(start as int, s@.len() as int),
{
    vstd::slice::slice_subrange(s, start, s.len())
}

/// List all filenames in a directory index.
pub fn list(index_data: &[u8]) -> (r: Result<Vec<String>, NtfsError>)
    ensures
        r matches Ok(names) && names_view(names@) == index_names(index_data@),
{
    list_from_index(index_data)
}

/// Find an entry in a directory index by name, returning its MFT record number.
pub fn find(index_data: &[u8], name: &str) -> (r: Result<u64, NtfsError>)
    ensures
        r matches Ok(n) ==> index_find(index_data@, name@) == Some(n),
        r is Err ==> index_find(index_data@, name@) is None,
        r matches Err(e) ==> e == NtfsError::FileNotFound,
{
    find_in_directory_with_index(index_data, name)
}


/// Insert an entry for `child_record` named `name` into the `$INDEX_ROOT` of
/// `parent` (before its last entry) and write the parent's record back; an
/// index without room is refused with `InvalidAttribute`.
pub fn add_directory_entry<D: BlockDevice>(driver: &mut NtfsDriver<D>, parent: &NtfsFile, child_record: u64, name: &str) -> (r: Result<(), NtfsError>)
    requires
        old(driver).addressable(parent.number()),
        index_entry_len(utf16_units(name@).len() as int) <= usize::MAX,
        old(driver).record(parent.number()) matches Ok(rec) ==> insert_ok(rec, utf16_units(name@).len() as int),
    ensures
        final(driver).boot_sector() == old(driver).boot_sector(),
        final(driver).record_size() == old(driver).record_size(),
        unchanged_outside(final(driver).dev().contents(), old(driver).dev().contents(),
            old(driver).record_offset(parent.number()), old(driver).record_offset(parent.number()) + old(driver).record_size()),
        r is Ok ==> (old(driver).record(parent.number()) matches Ok(rec) && exists|n: Seq<u8>| {
            &&& entry_inserted(n, rec, index_header_offset(rec), child_record, parent.number(), utf16_units(name@))
            &&& final(driver).dev().contents() == splice(old(driver).dev().contents(), old(driver).record_offset(parent.number()),
                #[trigger] reapply_fixups_spec(n))
        }),
        r matches Err(e) ==> e == NtfsError::IoError || e == NtfsError::InvalidAttribute
            || old(driver).record(parent.number()) == Err::<Seq<u8>, NtfsError>(e),
        r matches Err(e) && e != NtfsError::IoError ==> final(driver).same_volume(old(driver)),
        r is Ok ==> (old(driver).record(parent.number()) matches Ok(rec) && has_room(rec, utf16_units(name@).len() as int)),
        r == Err::<(), NtfsError>(NtfsError::InvalidAttribute) ==> (old(driver).record(parent.number()) matches Ok(rec)
            && !has_room(rec, utf16_units(name@).len() as int)),
{
    driver.insert_directory_entry(parent, child_record, name)
}

} // verus!
