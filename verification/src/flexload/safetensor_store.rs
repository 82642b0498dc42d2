//! Layers of a model stored in safetensors files: which layer ids the files hold and how many
//! bytes of tensor data each layer has. Tensors belong to layer `n` when their name starts with
//! the store's prefix followed by `n` and a dot (`model.layers.3.mlp.weight`).
use vstd::prelude::*;
use std::path::PathBuf;
use safetensors::SafeTensors;
use crate::flexload::error::FlexLoadError;
use crate::text::{chars_of, copy_range, decimal, parse_usize, parse_usize_spec, seq_starts_with,
    str_starts_with, usize_to_decimal};

verus! {

broadcast use vstd::seq_lib::group_seq_properties;

/// The part of a tensor name that comes before the layer number.
pub struct LayerPrefixPattern {
    pub prefix: String,
}

/// A model split over safetensors files.
pub struct SafetensorsLayerStore {
    pub paths: Vec<PathBuf>,
    pub layer_prefix_pattern: LayerPrefixPattern,
}

/// The tensors a safetensors file holds, as pairs of name and byte length of the tensor's
/// data; `None` when the bytes are not a valid safetensors file.
pub uninterp spec fn safetensors_tensors(buffer: Seq<u8>) -> Option<Set<(Seq<char>, nat)>>;

/// The (name, length) pairs of a tensor table.
pub open spec fn table_entries(t: Seq<(String, usize)>) -> Set<(Seq<char>, nat)> {
    t.map_values(|e: (String, usize)| (e.0@, e.1 as nat)).to_set()
}

/// No name occurs twice in the table.
pub open spec fn names_distinct(t: Seq<(String, usize)>) -> bool {
    forall|i: int, j: int| 0 <= i < j < t.len() ==> t[i].0@ != t[j].0@
}

/// The sum of the lengths in a table.
pub open spec fn lengths_total(t: Seq<(String, usize)>) -> nat
    decreases t.len(),
{
    if t.len() == 0 {
        0
    } else {
        lengths_total(t.drop_last()) + t.last().1 as nat
    }
}

/// Calls `SafeTensors::deserialize` on the bytes of a file and lists each tensor it finds by
/// name with the length of its data slice. The names are the keys of the header's map, so
/// none repeats; the data slices are consecutive parts of the buffer after the header, so
/// their lengths add up to no more than the buffer's length. In which order the tensors come
/// is not stated: the crate walks a `HashMap`.
#[verifier::external_body]
fn read_tensor_table(buffer: &[u8]) -> (r: Option<Vec<(String, usize)>>)
    ensures
        match r {
            None => safetensors_tensors(buffer@) is None,
            Some(t) => {
                &&& safetensors_tensors(buffer@) == Some(table_entries(t@))
                &&& names_distinct(t@)
                &&& lengths_total(t@) <= buffer@.len()
            },
        },
{
    match SafeTensors::deserialize(buffer) {
        Ok(st) => Some(st.tensors().into_iter().map(|(name, view)| (name, view.data().len())).collect()),
        Err(_) => None,
    }
}

/// What `SafeTensors::read_metadata` finds in the bytes of a file: the length of the JSON
/// header, and each tensor with its element type, shape and data range (relative to the data
/// section, which follows the 8-byte length and the header); `None` when the bytes are not a
/// valid safetensors file.
pub uninterp spec fn safetensors_layout(buffer: Seq<u8>) -> Option<(nat, Set<(Seq<char>, TensorDtype, Seq<usize>, nat, nat)>)>;

/// A tensor entry as plain values.
pub open spec fn info_view(e: (String, TensorDtype, Vec<usize>, usize, usize)) -> (Seq<char>, TensorDtype, Seq<usize>, nat, nat) {
    (e.0@, e.1, e.2@, e.3 as nat, e.4 as nat)
}

/// The tensor entries of a list, as plain values.
pub open spec fn infos_view(v: Seq<(String, TensorDtype, Vec<usize>, usize, usize)>) -> Seq<(Seq<char>, TensorDtype, Seq<usize>, nat, nat)> {
    v.map_values(|e: (String, TensorDtype, Vec<usize>, usize, usize)| info_view(e))
}

/// The (name, data length) pairs of a list of tensor entries.
pub open spec fn info_lengths(v: Seq<(String, TensorDtype, Vec<usize>, usize, usize)>) -> Set<(Seq<char>, nat)> {
    v.map_values(|e: (String, TensorDtype, Vec<usize>, usize, usize)| (e.0@, (e.4 - e.3) as nat)).to_set()
}

/// Calls `SafeTensors::read_metadata` on the bytes of a file (the parse `deserialize` makes,
/// which fails exactly when it fails) and lists each tensor of the header with its element
/// type (F16, BF16 and F32 told apart, any other as `Other`), shape and data offsets. The names
/// are the keys of the header's map, so none repeats; the crate's validation makes each range
/// run forward and end inside the file, after the 8-byte length and the header; the data of a
/// tensor that `deserialize` hands out is that range. In which order the tensors come is not
/// stated: the crate walks a `HashMap`.
#[verifier::external_body]
fn read_tensor_infos(buffer: &[u8]) -> (r: Option<(usize, Vec<(String, TensorDtype, Vec<usize>, usize, usize)>)>)
    ensures
        match r {
            None => safetensors_layout(buffer@) is None && safetensors_tensors(buffer@) is None,
            Some((n, v)) => {
                &&& safetensors_layout(buffer@) == Some((n as nat, infos_view(v@).to_set()))
                &&& safetensors_tensors(buffer@) == Some(info_lengths(v@))
                &&& forall|i: int, j: int| 0 <= i < j < v@.len() ==> v@[i].0@ != v@[j].0@
                &&& 8 + n <= buffer@.len()
                &&& forall|k: int| 0 <= k < v@.len() ==> v@[k].3 <= v@[k].4 && 8 + n + v@[k].4 <= buffer@.len()
            },
        },
{
    match SafeTensors::read_metadata(buffer) {
        Ok((n, md)) => Some((n, md.tensors().into_iter().map(|(name, info)| {
            let dtype = match info.dtype {
                safetensors::Dtype::F16 => TensorDtype::F16,
                safetensors::Dtype::BF16 => TensorDtype::BF16,
                safetensors::Dtype::F32 => TensorDtype::F32,
                _ => TensorDtype::Other,
            };
            (name, dtype, info.shape.clone(), info.data_offsets.0, info.data_offsets.1)
        }).collect())),
        Err(_) => None,
    }
}

/// The characters of `s` before the first `c` (all of `s` when there is none): the first
/// item `str::split` yields.
pub open spec fn before_char(s: Seq<char>, c: char) -> Seq<char>
    decreases s.len(),
{
    if s.len() == 0 {
        s
    } else if s[0] == c {
        Seq::empty()
    } else {
        seq![s[0]] + before_char(s.drop_first(), c)
    }
}

/// The layer a tensor name belongs to: the number between the prefix and the next dot.
pub open spec fn layer_id_of(prefix: Seq<char>, name: Seq<char>) -> Option<usize> {
    if seq_starts_with(name, prefix) {
        parse_usize_spec(before_char(name.skip(prefix.len() as int), '.'))
    } else {
        None
    }
}

/// The layer ids named in one file (none when it does not parse).
pub open spec fn file_layer_ids(prefix: Seq<char>, buffer: Seq<u8>) -> Set<usize> {
    match safetensors_tensors(buffer) {
        None => Set::empty(),
        Some(s) => Set::new(|id: usize| exists|e: (Seq<char>, nat)| #[trigger] s.contains(e) && layer_id_of(prefix, e.0) == Some(id)),
    }
}

/// The layer ids named in any of the files.
pub open spec fn files_layer_ids(prefix: Seq<char>, buffers: Seq<Seq<u8>>) -> Set<usize>
    decreases buffers.len(),
{
    if buffers.len() == 0 {
        Set::empty()
    } else {
        files_layer_ids(prefix, buffers.drop_last()).union(file_layer_ids(prefix, buffers.last()))
    }
}

/// The name prefix of the tensors of one layer: the store's prefix, the id and a dot.
pub open spec fn layer_prefix(prefix: Seq<char>, layer_id: usize) -> Seq<char> {
    prefix + decimal(layer_id as nat) + "."@
}

/// Adds a tensor's length when its name starts with `p`.
pub open spec fn add_prefixed(p: Seq<char>) -> spec_fn(nat, (Seq<char>, nat)) -> nat {
    |acc: nat, e: (Seq<char>, nat)| acc + if seq_starts_with(e.0, p) { e.1 } else { 0nat }
}

/// The bytes of data of the tensors of a file whose names start with `p`.
pub open spec fn file_prefix_bytes(p: Seq<char>, buffer: Seq<u8>) -> nat {
    match safetensors_tensors(buffer) {
        None => 0,
        Some(s) => s.fold(0nat, add_prefixed(p)),
    }
}

/// The bytes of data of the tensors of all the files whose names start with `p`.
pub open spec fn files_prefix_bytes(p: Seq<char>, buffers: Seq<Seq<u8>>) -> nat
    decreases buffers.len(),
{
    if buffers.len() == 0 {
        0
    } else {
        files_prefix_bytes(p, buffers.drop_last()) + file_prefix_bytes(p, buffers.last())
    }
}

/// The total length of the buffers.
pub open spec fn buffers_len(buffers: Seq<Seq<u8>>) -> nat
    decreases buffers.len(),
{
    if buffers.len() == 0 {
        0
    } else {
        buffers_len(buffers.drop_last()) + buffers.last().len()
    }
}

/// The contents of the mapped files.
pub open spec fn buffer_views(buffers: Seq<&[u8]>) -> Seq<Seq<u8>> {
    buffers.map_values(|b: &[u8]| b@)
}

/// Each element is smaller than the next.
pub open spec fn strictly_increasing(s: Seq<usize>) -> bool {
    forall|i: int, j: int| 0 <= i < j < s.len() ==> s[i] < s[j]
}

/// The layer ids named in one tensor table.
pub open spec fn table_layer_ids(prefix: Seq<char>, t: Seq<(String, usize)>) -> Set<usize> {
    Set::new(|id: usize| exists|k: int| 0 <= k < t.len() && #[trigger] layer_id_of(prefix, t[k].0@) == Some(id))
}

/// The layer ids named in any of the tensor tables.
pub open spec fn tables_layer_ids(prefix: Seq<char>, tables: Seq<Vec<(String, usize)>>) -> Set<usize>
    decreases tables.len(),
{
    if tables.len() == 0 {
        Set::empty()
    } else {
        tables_layer_ids(prefix, tables.drop_last()).union(table_layer_ids(prefix, tables.last()@))
    }
}

/// The bytes of the tables' tensors whose names start with `p`.
pub open spec fn tables_prefix_bytes(p: Seq<char>, tables: Seq<Vec<(String, usize)>>) -> nat
    decreases tables.len(),
{
    if tables.len() == 0 {
        0
    } else {
        tables_prefix_bytes(p, tables.drop_last()) + prefixed_sum(tables.last()@, p)
    }
}

/// The sum of all the tables' lengths.
pub open spec fn tables_total(tables: Seq<Vec<(String, usize)>>) -> nat
    decreases tables.len(),
{
    if tables.len() == 0 {
        0
    } else {
        tables_total(tables.drop_last()) + lengths_total(tables.last()@)
    }
}

/// The tensors of one file that belong to a layer: each name that starts with the layer's
/// prefix, paired with the rest of the name, in the order given.
pub open spec fn layer_tensors(p: Seq<char>, names: Seq<Seq<char>>) -> Seq<(Seq<char>, Seq<char>)>
    decreases names.len(),
{
    if names.len() == 0 {
        Seq::empty()
    } else {
        let prev = layer_tensors(p, names.drop_last());
        if seq_starts_with(names.last(), p) {
            prev.push((names.last(), names.last().skip(p.len() as int)))
        } else {
            prev
        }
    }
}

/// Each file's selection is empty.
pub open spec fn all_empty(s: Seq<Seq<(Seq<char>, Seq<char>)>>) -> bool {
    forall|i: int| 0 <= i < s.len() ==> (#[trigger] s[i]).len() == 0
}

/// Pairs of strings as pairs of character sequences.
pub open spec fn pairs_view(v: Seq<(String, String)>) -> Seq<(Seq<char>, Seq<char>)> {
    v.map_values(|x: (String, String)| (x.0@, x.1@))
}

/// Strings as character sequences.
pub open spec fn names_view(v: Seq<String>) -> Seq<Seq<char>> {
    v.map_values(|x: String| x@)
}

proof fn lemma_before_char(s: Seq<char>, c: char, i: int)
    requires
        0 <= i <= s.len(),
        forall|j: int| 0 <= j < i ==> s[j] != c,
        i == s.len() || s[i] == c,
    ensures
        before_char(s, c) == s.take(i),
    decreases s.len(),
{
    if s.len() > 0 && s[0] != c {
        lemma_before_char(s.drop_first(), c, i - 1);
        assert(seq![s[0]] + s.drop_first().take(i - 1) =~= s.take(i));
    } else if s.len() > 0 {
        assert(s.take(i) =~= Seq::<char>::empty());
    } else {
        assert(s.take(i) =~= s);
    }
}

/// The layer id a tensor name carries.
fn name_layer_id(prefix: &str, name: &str) -> (r: Option<usize>)
    ensures
        r == layer_id_of(prefix@, name@),
{
    if !str_starts_with(name, prefix) {
        return None;
    }
    let v = chars_of(name);
    let start = prefix.unicode_len();
    let mut j = start;
    while j < v.len() && v[j] != '.'
        invariant
            start <= j <= v@.len(),
            v@ == name@,
            start == prefix@.len(),
            forall|k: int| start <= k < j ==> v@[k] != '.',
        decreases v@.len() - j,
    {
        j = j + 1;
    }
    proof {
        let rest = v@.skip(start as int);
        lemma_before_char(rest, '.', j - start);
        assert(rest.take(j - start) =~= v@.subrange(start as int, j as int));
    }
    parse_usize(&copy_range(&v, start, j))
}

/// Adds `x` to a strictly increasing sequence, keeping it so.
fn insert_sorted(v: &mut Vec<usize>, x: usize)
    requires
        strictly_increasing(old(v)@),
    ensures
        strictly_increasing(final(v)@),
        forall|y: usize| final(v)@.contains(y) <==> (old(v)@.contains(y) || y == x),
{
    let mut i: usize = 0;
    while i < v.len() && v[i] < x
        invariant
            i <= v@.len(),
            forall|k: int| 0 <= k < i ==> v@[k] < x,
        decreases v@.len() - i,
    {
        i = i + 1;
    }
    if i < v.len() && v[i] == x {
        return;
    }
    let ghost before = v@;
    v.insert(i, x);
    proof {
        assert forall|a: int, b: int| 0 <= a < b < v@.len() implies v@[a] < v@[b] by {
            if b < i {
            } else if a > i {
                assert(v@[a] == before[a - 1] && v@[b] == before[b - 1]);
            } else if a == i {
                assert(before[i as int] > x);
                assert(v@[b] == before[b - 1]);
            } else if b == i {
            } else {
                assert(v@[b] == before[b - 1]);
                assert(before[i as int] > x);
            }
        }
        assert forall|y: usize| v@.contains(y) <==> (before.contains(y) || y == x) by {
            if v@.contains(y) {
                let k = choose|k: int| 0 <= k < v@.len() && v@[k] == y;
                if k < i {
                    assert(before[k] == y);
                } else if k > i {
                    assert(before[k - 1] == y);
                }
            }
            if before.contains(y) {
                let k = choose|k: int| 0 <= k < before.len() && before[k] == y;
                if k < i {
                    assert(v@[k] == y);
                } else {
                    assert(v@[k + 1] == y);
                }
            }
            if y == x {
                assert(v@[i as int] == x);
            }
        }
    }
}

proof fn lemma_table_entry(t: Seq<(String, usize)>, e: (Seq<char>, nat))
    ensures
        table_entries(t).contains(e) <==> exists|k: int| 0 <= k < t.len() && e == (t[k].0@, t[k].1 as nat),
{
    let m = t.map_values(|x: (String, usize)| (x.0@, x.1 as nat));
    if table_entries(t).contains(e) {
        let k = choose|k: int| 0 <= k < m.len() && m[k] == e;
        assert(e == (t[k].0@, t[k].1 as nat));
    }
    if exists|k: int| 0 <= k < t.len() && e == (t[k].0@, t[k].1 as nat) {
        let k = choose|k: int| 0 <= k < t.len() && e == (t[k].0@, t[k].1 as nat);
        assert(m[k] == e);
    }
}

/// The lengths of the table's tensors whose names start with `p`.
pub open spec fn prefixed_sum(t: Seq<(String, usize)>, p: Seq<char>) -> nat
    decreases t.len(),
{
    if t.len() == 0 {
        0
    } else {
        prefixed_sum(t.drop_last(), p) + if seq_starts_with(t.last().0@, p) { t.last().1 as nat } else { 0nat }
    }
}

proof fn lemma_add_prefixed_commutes(p: Seq<char>)
    ensures
        vstd::set::fold::is_fun_commutative(add_prefixed(p)),
{
    let f = add_prefixed(p);
    assert forall|a1: (Seq<char>, nat), a2: (Seq<char>, nat), b: nat| #[trigger] f(f(b, a2), a1) == f(f(b, a1), a2) by {}
}

/// Folding the table's entries sums the same lengths as walking the table, and no more than
/// all of them.
proof fn lemma_table_fold(t: Seq<(String, usize)>, p: Seq<char>)
    requires
        names_distinct(t),
    ensures
        table_entries(t).finite(),
        table_entries(t).fold(0nat, add_prefixed(p)) == prefixed_sum(t, p),
        prefixed_sum(t, p) <= lengths_total(t),
    decreases t.len(),
{
    broadcast use vstd::set::group_set_axioms;
    let f = add_prefixed(p);
    if t.len() == 0 {
        assert(table_entries(t) =~= Set::<(Seq<char>, nat)>::empty());
        vstd::set::fold::lemma_fold_empty(0nat, f);
    } else {
        let s = t.drop_last();
        let e = (t.last().0@, t.last().1 as nat);
        lemma_table_fold(s, p);
        assert(t.map_values(|x: (String, usize)| (x.0@, x.1 as nat)) =~= s.map_values(
            |x: (String, usize)| (x.0@, x.1 as nat),
        ).push(e));
        assert(table_entries(t) =~= table_entries(s).insert(e));
        if table_entries(s).contains(e) {
            lemma_table_entry(s, e);
            let k = choose|k: int| 0 <= k < s.len() && e == (s[k].0@, s[k].1 as nat);
            assert(t[k].0@ == t[t.len() - 1].0@);
        }
        lemma_add_prefixed_commutes(p);
        vstd::set::fold::lemma_fold_insert(table_entries(s), 0nat, f, e);
    }
}

proof fn lemma_lengths_take(t: Seq<(String, usize)>, k: int)
    requires
        0 <= k <= t.len(),
    ensures
        lengths_total(t.take(k)) <= lengths_total(t),
    decreases t.len(),
{
    if k < t.len() {
        assert(t.drop_last().take(k) =~= t.take(k));
        lemma_lengths_take(t.drop_last(), k);
    } else {
        assert(t.take(k) =~= t);
    }
}

proof fn lemma_prefixed_le(t: Seq<(String, usize)>, p: Seq<char>)
    ensures
        prefixed_sum(t, p) <= lengths_total(t),
    decreases t.len(),
{
    if t.len() > 0 {
        lemma_prefixed_le(t.drop_last(), p);
    }
}

proof fn lemma_tables_total_take(tables: Seq<Vec<(String, usize)>>, k: int)
    requires
        0 <= k <= tables.len(),
    ensures
        tables_total(tables.take(k)) <= tables_total(tables),
    decreases tables.len(),
{
    if k < tables.len() {
        assert(tables.drop_last().take(k) =~= tables.take(k));
        lemma_tables_total_take(tables.drop_last(), k);
    } else {
        assert(tables.take(k) =~= tables);
    }
}

/// A file that parses names the layer ids and holds the bytes its table lists.
proof fn lemma_file_table(b: Seq<u8>, t: Seq<(String, usize)>, p: Seq<char>)
    requires
        safetensors_tensors(b) == Some(table_entries(t)),
        names_distinct(t),
    ensures
        file_layer_ids(p, b) == table_layer_ids(p, t),
        file_prefix_bytes(p, b) == prefixed_sum(t, p),
{
    lemma_table_fold(t, p);
    assert forall|id: usize| #[trigger] file_layer_ids(p, b).contains(id) <==> table_layer_ids(p, t).contains(id) by {
        if file_layer_ids(p, b).contains(id) {
            let e = choose|e: (Seq<char>, nat)| #[trigger] table_entries(t).contains(e) && layer_id_of(p, e.0) == Some(id);
            lemma_table_entry(t, e);
            let k = choose|k: int| 0 <= k < t.len() && e == (t[k].0@, t[k].1 as nat);
            assert(layer_id_of(p, t[k].0@) == Some(id));
        }
        if table_layer_ids(p, t).contains(id) {
            let k = choose|k: int| 0 <= k < t.len() && #[trigger] layer_id_of(p, t[k].0@) == Some(id);
            let e = (t[k].0@, t[k].1 as nat);
            lemma_table_entry(t, e);
            assert(table_entries(t).contains(e));
        }
    }
    assert(file_layer_ids(p, b) =~= table_layer_ids(p, t));
}

/// The tensor tables of the files that parse, in the files' order.
fn read_tables(buffers: &Vec<&[u8]>) -> (r: Vec<Vec<(String, usize)>>)
    ensures
        forall|p: Seq<char>| #[trigger] files_layer_ids(p, buffer_views(buffers@)) == tables_layer_ids(p, r@),
        forall|p: Seq<char>| #[trigger] files_prefix_bytes(p, buffer_views(buffers@)) == tables_prefix_bytes(p, r@),
        tables_total(r@) <= buffers_len(buffer_views(buffers@)),
{
    let ghost bufs = buffer_views(buffers@);
    let mut tables: Vec<Vec<(String, usize)>> = Vec::new();
    let mut i: usize = 0;
    while i < buffers.len()
        invariant
            i <= buffers@.len(),
            bufs == buffer_views(buffers@),
            forall|p: Seq<char>| #[trigger] files_layer_ids(p, bufs.take(i as int)) == tables_layer_ids(p, tables@),
            forall|p: Seq<char>| #[trigger] files_prefix_bytes(p, bufs.take(i as int)) == tables_prefix_bytes(p, tables@),
            tables_total(tables@) <= buffers_len(bufs.take(i as int)),
        decreases buffers@.len() - i,
    {
        assert(bufs.take(i + 1).drop_last() =~= bufs.take(i as int));
        assert(bufs.take(i + 1).last() == buffers@[i as int]@);
        let ghost before = tables@;
        match read_tensor_table(buffers[i]) {
            None => {
                assert forall|p: Seq<char>| #[trigger] files_layer_ids(p, bufs.take(i + 1)) == tables_layer_ids(p, tables@) by {
                    assert(files_layer_ids(p, bufs.take(i as int)) == tables_layer_ids(p, tables@));
                    assert(files_layer_ids(p, bufs.take(i + 1)) =~= files_layer_ids(p, bufs.take(i as int)));
                }
                assert forall|p: Seq<char>| #[trigger] files_prefix_bytes(p, bufs.take(i + 1)) == tables_prefix_bytes(p, tables@) by {
                    assert(files_prefix_bytes(p, bufs.take(i as int)) == tables_prefix_bytes(p, tables@));
                    assert(file_prefix_bytes(p, buffers@[i as int]@) == 0);
                }
            },
            Some(t) => {
                let ghost tv = t@;
                tables.push(t);
                assert(tables@.drop_last() =~= before);
                assert(tables@.last()@ == tv);
                assert forall|p: Seq<char>| #[trigger] files_layer_ids(p, bufs.take(i + 1)) == tables_layer_ids(p, tables@) by {
                    lemma_file_table(buffers@[i as int]@, tv, p);
                    assert(files_layer_ids(p, bufs.take(i as int)) == tables_layer_ids(p, before));
                }
                assert forall|p: Seq<char>| #[trigger] files_prefix_bytes(p, bufs.take(i + 1)) == tables_prefix_bytes(p, tables@) by {
                    lemma_file_table(buffers@[i as int]@, tv, p);
                    assert(files_prefix_bytes(p, bufs.take(i as int)) == tables_prefix_bytes(p, before));
                }
                assert(tables_total(tables@) == tables_total(before) + lengths_total(tv));
            },
        }
        i = i + 1;
    }
    assert(bufs.take(i as int) =~= bufs);
    tables
}

/// The names of the tensors in a set of (name, length) pairs.
pub open spec fn tensor_names(s: Set<(Seq<char>, nat)>) -> Set<Seq<char>> {
    s.map(|e: (Seq<char>, nat)| e.0)
}

/// `names` lists the tensor names of a file, each once, in some order; nothing when the file
/// is not valid safetensors.
pub open spec fn lists_file_names(buffer: Seq<u8>, names: Seq<Seq<char>>) -> bool {
    match safetensors_tensors(buffer) {
        None => names.len() == 0,
        Some(s) => names.no_duplicates() && names.to_set() == tensor_names(s),
    }
}

/// `sel` is what a file holds of the layer whose names start with `p`: `layer_tensors` over
/// the file's tensor names in the order in which the file's table lists them.
pub open spec fn file_selection(p: Seq<char>, buffer: Seq<u8>, sel: Seq<(Seq<char>, Seq<char>)>) -> bool {
    exists|names: Seq<Seq<char>>| #[trigger] lists_file_names(buffer, names) && sel == layer_tensors(p, names)
}

/// The element types of a tensor in a safetensors file, as far as loading a layer tells
/// them apart.
#[derive(Debug, Clone, Copy, PartialEq, Eq, Structural)]
pub enum TensorDtype {
    F16,
    BF16,
    F32,
    Other,
}

/// The element types a tensor of a loaded layer has.
#[derive(Debug, Clone, Copy, PartialEq, Eq, Structural)]
pub enum LayerDtype {
    F16,
    BF16,
    F32,
}

/// The element type a tensor is loaded with: half, bfloat16 and single precision load as they
/// are; any other type is refused with an `IoError` that names the tensor.
pub fn layer_dtype_for(name: &str, dtype: TensorDtype) -> (r: Result<LayerDtype, FlexLoadError>)
    ensures
        match dtype {
            TensorDtype::F16 => r == Ok::<LayerDtype, FlexLoadError>(LayerDtype::F16),
            TensorDtype::BF16 => r == Ok::<LayerDtype, FlexLoadError>(LayerDtype::BF16),
            TensorDtype::F32 => r == Ok::<LayerDtype, FlexLoadError>(LayerDtype::F32),
            TensorDtype::Other => r matches Err(FlexLoadError::IoError(m)) && m@ == "Unsupported dtype for tensor: "@
                + name@,
        },
{
    match dtype {
        TensorDtype::F16 => Ok(LayerDtype::F16),
        TensorDtype::BF16 => Ok(LayerDtype::BF16),
        TensorDtype::F32 => Ok(LayerDtype::F32),
        TensorDtype::Other => Err(FlexLoadError::IoError(String::from_str("Unsupported dtype for tensor: ").concat(name))),
    }
}

proof fn lemma_table_names(t: Seq<(String, usize)>, nv: Seq<Seq<char>>)
    requires
        names_distinct(t),
        nv.len() == t.len(),
        forall|j: int| 0 <= j < t.len() ==> nv[j] == t[j].0@,
    ensures
        nv.no_duplicates(),
        nv.to_set() == tensor_names(table_entries(t)),
{
    assert forall|x: Seq<char>| nv.to_set().contains(x) <==> tensor_names(table_entries(t)).contains(x) by {
        if nv.to_set().contains(x) {
            let j = choose|j: int| 0 <= j < nv.len() && nv[j] == x;
            let e = (t[j].0@, t[j].1 as nat);
            lemma_table_entry(t, e);
            assert(table_entries(t).contains(e));
        }
        if tensor_names(table_entries(t)).contains(x) {
            let e = choose|e: (Seq<char>, nat)| table_entries(t).contains(e) && x == e.0;
            lemma_table_entry(t, e);
            let k = choose|k: int| 0 <= k < t.len() && e == (t[k].0@, t[k].1 as nat);
            assert(nv[k] == x);
        }
    }
    assert(nv.to_set() =~= tensor_names(table_entries(t)));
}

/// The tensor names of each file, in the order in which the file's table lists them; none
/// for a file that is not valid safetensors.
fn names_per_buffer(buffers: &Vec<&[u8]>) -> (r: Vec<Vec<String>>)
    ensures
        r@.len() == buffers@.len(),
        forall|i: int| 0 <= i < r@.len() ==> lists_file_names(buffers@[i]@, names_view(#[trigger] r@[i]@)),
{
    let mut out: Vec<Vec<String>> = Vec::new();
    let mut i: usize = 0;
    while i < buffers.len()
        invariant
            i <= buffers@.len(),
            out@.len() == i,
            forall|j: int| 0 <= j < i ==> lists_file_names(buffers@[j]@, names_view(#[trigger] out@[j]@)),
        decreases buffers@.len() - i,
    {
        let mut names: Vec<String> = Vec::new();
        match read_tensor_table(buffers[i]) {
            None => {},
            Some(t) => {
                let mut k: usize = 0;
                while k < t.len()
                    invariant
                        k <= t@.len(),
                        names@.len() == k,
                        forall|j: int| 0 <= j < k ==> (#[trigger] names@[j])@ == t@[j].0@,
                    decreases t@.len() - k,
                {
                    names.push(t[k].0.clone());
                    k = k + 1;
                }
                proof {
                    lemma_table_names(t@, names_view(names@));
                }
            },
        }
        let ghost prev = out@;
        out.push(names);
        proof {
            assert forall|j: int| 0 <= j < i + 1 implies lists_file_names(buffers@[j]@, names_view(#[trigger] out@[j]@)) by {
                if j < i {
                    assert(out@[j] == prev[j]);
                }
            }
        }
        i = i + 1;
    }
    out
}

/// The element type a tensor of type `d` is loaded with, for the types that load
/// (`layer_dtype_for`).
pub open spec fn loaded_dtype(d: TensorDtype) -> LayerDtype {
    match d {
        TensorDtype::F16 => LayerDtype::F16,
        TensorDtype::BF16 => LayerDtype::BF16,
        _ => LayerDtype::F32,
    }
}

/// How to load the tensors of a file that belong to the layer whose names start with `p`, in
/// the order of `es`: each tensor's name, the rest of its name (its name within the layer),
/// the element type it loads with, its shape, and where its data starts and ends in the file
/// (`base` is where the data section starts).
pub open spec fn layer_load_specs(p: Seq<char>, base: int, es: Seq<(Seq<char>, TensorDtype, Seq<usize>, nat, nat)>) -> Seq<
    (Seq<char>, Seq<char>, LayerDtype, Seq<usize>, int, int),
>
    decreases es.len(),
{
    if es.len() == 0 {
        Seq::empty()
    } else {
        let prev = layer_load_specs(p, base, es.drop_last());
        let e = es.last();
        if seq_starts_with(e.0, p) {
            prev.push((e.0, e.0.skip(p.len() as int), loaded_dtype(e.1), e.2, base + e.3, base + e.4))
        } else {
            prev
        }
    }
}

/// Load specs as plain values.
pub open spec fn specs_view(v: Seq<(String, String, LayerDtype, Vec<usize>, usize, usize)>) -> Seq<
    (Seq<char>, Seq<char>, LayerDtype, Seq<usize>, int, int),
> {
    v.map_values(|x: (String, String, LayerDtype, Vec<usize>, usize, usize)| (x.0@, x.1@, x.2, x.3@, x.4 as int, x.5 as int))
}

/// `specs` is how to load what the file holds of the layer whose names start with `p`:
/// `layer_load_specs` over the file's tensors, each once, in the order in which the file's
/// table lists them; nothing when the file is not valid safetensors.
pub open spec fn file_load_specs(p: Seq<char>, buffer: Seq<u8>, specs: Seq<(Seq<char>, Seq<char>, LayerDtype, Seq<usize>, int, int)>) -> bool {
    match safetensors_layout(buffer) {
        None => specs.len() == 0,
        Some((n, s)) => exists|es: Seq<(Seq<char>, TensorDtype, Seq<usize>, nat, nat)>|
            (#[trigger] es.to_set()) == s && es.no_duplicates() && specs == layer_load_specs(p, 8 + n as int, es),
    }
}

/// The file holds a tensor whose name starts with `p`.
pub open spec fn has_layer_tensor(p: Seq<char>, buffer: Seq<u8>) -> bool {
    match safetensors_layout(buffer) {
        None => false,
        Some((n, s)) => exists|e: (Seq<char>, TensorDtype, Seq<usize>, nat, nat)| #[trigger] s.contains(e) && seq_starts_with(e.0, p),
    }
}

/// The file holds a tensor whose name starts with `p` and whose element type does not load.
pub open spec fn has_unloadable(p: Seq<char>, buffer: Seq<u8>) -> bool {
    match safetensors_layout(buffer) {
        None => false,
        Some((n, s)) => exists|e: (Seq<char>, TensorDtype, Seq<usize>, nat, nat)|
            #[trigger] s.contains(e) && seq_starts_with(e.0, p) && e.1 == TensorDtype::Other,
    }
}

/// `m` is the message that refuses a tensor of the file whose name starts with `p` and whose
/// element type does not load.
pub open spec fn unloadable_named(p: Seq<char>, buffer: Seq<u8>, m: Seq<char>) -> bool {
    match safetensors_layout(buffer) {
        None => false,
        Some((n, s)) => exists|e: (Seq<char>, TensorDtype, Seq<usize>, nat, nat)|
            #[trigger] s.contains(e) && seq_starts_with(e.0, p) && e.1 == TensorDtype::Other
                && m == "Unsupported dtype for tensor: "@ + e.0,
    }
}

proof fn lemma_specs_empty(p: Seq<char>, base: int, es: Seq<(Seq<char>, TensorDtype, Seq<usize>, nat, nat)>)
    ensures
        (layer_load_specs(p, base, es).len() > 0) <==> exists|j: int| 0 <= j < es.len() && seq_starts_with(#[trigger] es[j].0, p),
    decreases es.len(),
{
    if es.len() > 0 {
        let t = es.drop_last();
        lemma_specs_empty(p, base, t);
        if exists|j: int| 0 <= j < es.len() && seq_starts_with(#[trigger] es[j].0, p) {
            let j = choose|j: int| 0 <= j < es.len() && seq_starts_with(#[trigger] es[j].0, p);
            if j < t.len() {
                assert(seq_starts_with(t[j].0, p));
            }
        }
        if exists|j: int| 0 <= j < t.len() && seq_starts_with(#[trigger] t[j].0, p) {
            let j = choose|j: int| 0 <= j < t.len() && seq_starts_with(#[trigger] t[j].0, p);
            assert(es[j] == t[j]);
        }
    }
}

/// A copy of a list of numbers.
fn copy_usizes(v: &Vec<usize>) -> (r: Vec<usize>)
    ensures
        r@ == v@,
{
    let mut out: Vec<usize> = Vec::new();
    let mut i: usize = 0;
    while i < v.len()
        invariant
            i <= v@.len(),
            out@ == v@.take(i as int),
        decreases v@.len() - i,
    {
        out.push(v[i]);
        i = i + 1;
        assert(out@ =~= v@.take(i as int));
    }
    assert(v@.take(i as int) =~= v@);
    out
}

/// How to load the tensors of one file whose names start with `lp` (see `file_load_specs`);
/// the refusal of the first one in the file's table whose element type does not load.
fn file_specs(buffer: &[u8], lp: &str) -> (r: Result<Vec<(String, String, LayerDtype, Vec<usize>, usize, usize)>, FlexLoadError>)
    ensures
        match r {
            Ok(v) => {
                &&& file_load_specs(lp@, buffer@, specs_view(v@))
                &&& !has_unloadable(lp@, buffer@)
                &&& (v@.len() > 0 <==> has_layer_tensor(lp@, buffer@))
            },
            Err(e) => has_unloadable(lp@, buffer@) && (e matches FlexLoadError::IoError(m) && unloadable_named(lp@, buffer@, m@)),
        },
{
    let mut out: Vec<(String, String, LayerDtype, Vec<usize>, usize, usize)> = Vec::new();
    let infos = read_tensor_infos(buffer);
    let (n, v) = match infos {
        Some(x) => x,
        None => {
            assert(specs_view(out@) =~= Seq::<(Seq<char>, Seq<char>, LayerDtype, Seq<usize>, int, int)>::empty());
            return Ok(out);
        },
    };
    let ghost p = lp@;
    let ghost es = infos_view(v@);
    assert(infos == Some((n, v)));
    let blen = buffer.len();
    assert(8 + n <= blen);
    let base: usize = 8 + n;
    let plen = lp.unicode_len();
    let mut k: usize = 0;
    while k < v.len()
        invariant
            k <= v@.len(),
            p == lp@,
            plen == p.len(),
            es == infos_view(v@),
            safetensors_layout(buffer@) == Some((n as nat, es.to_set())),
            base == 8 + n,
            base <= buffer@.len(),
            blen == buffer@.len(),
            forall|j: int| 0 <= j < v@.len() ==> v@[j].3 <= v@[j].4 && 8 + n + v@[j].4 <= buffer@.len(),
            specs_view(out@) == layer_load_specs(p, base as int, es.take(k as int)),
            forall|j: int| 0 <= j < k && seq_starts_with(#[trigger] es[j].0, p) ==> es[j].1 != TensorDtype::Other,
        decreases v@.len() - k,
    {
        assert(es.take(k + 1).drop_last() =~= es.take(k as int));
        assert(es[k as int] == info_view(v@[k as int]));
        let name = v[k].0.as_str();
        if str_starts_with(name, lp) {
            match layer_dtype_for(name, v[k].1) {
                Ok(d) => {
                    let rest = String::from_str(name.substring_char(plen, name.unicode_len()));
                    let shape = copy_usizes(&v[k].2);
                    let ghost before = out@;
                    out.push((String::from_str(name), rest, d, shape, base + v[k].3, base + v[k].4));
                    assert(specs_view(out@) =~= specs_view(before).push(
                        (name@, name@.skip(p.len() as int), loaded_dtype(v@[k as int].1), v@[k as int].2@,
                        base + v@[k as int].3, base + v@[k as int].4),
                    ));
                },
                Err(e) => {
                    proof {
                        let x = es[k as int];
                        assert(es.contains(x));
                        assert(es.to_set().contains(x));
                        assert(x.1 == TensorDtype::Other);
                        assert(seq_starts_with(x.0, p));
                        assert(safetensors_layout(buffer@) == Some((n as nat, es.to_set())));
                        assert(safetensors_layout(buffer@).unwrap().1.contains(x));
                        assert(has_unloadable(p, buffer@));
                        let m = e->IoError_0;
                        assert(m@ == "Unsupported dtype for tensor: "@ + x.0);
                        assert(unloadable_named(p, buffer@, m@));
                    }
                    return Err(e);
                },
            }
        }
        k = k + 1;
    }
    proof {
        assert(es.take(k as int) =~= es);
        lemma_specs_empty(p, base as int, es);
        assert(es.no_duplicates()) by {
            assert forall|i: int, j: int| 0 <= i < es.len() && 0 <= j < es.len() && i != j implies es[i] != es[j] by {
                if i < j {
                    assert(v@[i].0@ != v@[j].0@);
                } else {
                    assert(v@[j].0@ != v@[i].0@);
                }
            }
        }
        let s = es.to_set();
        assert(safetensors_layout(buffer@) == Some((n as nat, s)));
        assert(specs_view(out@) == layer_load_specs(p, 8 + n as int, es));
        assert(file_load_specs(p, buffer@, specs_view(out@)));
        if has_unloadable(p, buffer@) {
            let e = choose|e: (Seq<char>, TensorDtype, Seq<usize>, nat, nat)| #[trigger] s.contains(e) && seq_starts_with(e.0, p)
                && e.1 == TensorDtype::Other;
            assert(es.contains(e));
            let j = choose|j: int| 0 <= j < es.len() && es[j] == e;
            assert(seq_starts_with(es[j].0, p));
            assert(false);
        }
        if has_layer_tensor(p, buffer@) {
            let e = choose|e: (Seq<char>, TensorDtype, Seq<usize>, nat, nat)| #[trigger] s.contains(e) && seq_starts_with(e.0, p);
            assert(es.contains(e));
            let j = choose|j: int| 0 <= j < es.len() && es[j] == e;
            assert(seq_starts_with(es[j].0, p));
        }
        if exists|j: int| 0 <= j < es.len() && seq_starts_with(#[trigger] es[j].0, p) {
            let j = choose|j: int| 0 <= j < es.len() && seq_starts_with(#[trigger] es[j].0, p);
            assert(s.contains(es[j]));
        }
        assert(out@.len() == specs_view(out@).len());
    }
    Ok(out)
}

impl SafetensorsLayerStore {
    /// The layer ids named by the tensors of the given files (the contents of the store's
    /// files that could be opened), ascending and each once. A file that is not valid
    /// safetensors is skipped.
    pub fn layer_ids_in(&self, buffers: &Vec<&[u8]>) -> (ids: Vec<usize>)
        ensures
            strictly_increasing(ids@),
            forall|id: usize|
                ids@.contains(id) <==> files_layer_ids(self.layer_prefix_pattern.prefix@, buffer_views(buffers@)).contains(
                    id,
                ),
    {
        let tables = read_tables(buffers);
        self.layer_ids_from_tables(&tables)
    }

    /// The layer ids named in the given tensor tables (name and data length of each tensor of
    /// a file), ascending and each once.
    pub fn layer_ids_from_tables(&self, tables: &Vec<Vec<(String, usize)>>) -> (ids: Vec<usize>)
        ensures
            strictly_increasing(ids@),
            forall|id: usize| ids@.contains(id) <==> tables_layer_ids(self.layer_prefix_pattern.prefix@, tables@).contains(id),
    {
        let prefix = self.layer_prefix_pattern.prefix.as_str();
        let ghost p = prefix@;
        let mut ids: Vec<usize> = Vec::new();
        let mut i: usize = 0;
        while i < tables.len()
            invariant
                i <= tables@.len(),
                p == prefix@,
                strictly_increasing(ids@),
                forall|id: usize| #[trigger] ids@.contains(id) <==> tables_layer_ids(p, tables@.take(i as int)).contains(id),
            decreases tables@.len() - i,
        {
            assert(tables@.take(i + 1).drop_last() =~= tables@.take(i as int));
            assert(tables@.take(i + 1).last() == tables@[i as int]);
            let t = &tables[i];
            let ghost before = ids@;
            let mut k: usize = 0;
            while k < t.len()
                invariant
                    k <= t@.len(),
                    p == prefix@,
                    strictly_increasing(ids@),
                    forall|id: usize| #[trigger] ids@.contains(id) <==> (before.contains(id) || exists|j: int|
                        0 <= j < k && #[trigger] layer_id_of(p, t@[j].0@) == Some(id)),
                decreases t@.len() - k,
            {
                match name_layer_id(prefix, t[k].0.as_str()) {
                    Some(id) => {
                        let ghost mid = ids@;
                        assert(layer_id_of(p, t@[k as int].0@) == Some(id));
                        insert_sorted(&mut ids, id);
                        assert forall|y: usize| ids@.contains(y) <==> (before.contains(y) || exists|j: int|
                            0 <= j < k + 1 && #[trigger] layer_id_of(p, t@[j].0@) == Some(y)) by {
                            if exists|j: int| 0 <= j < k + 1 && #[trigger] layer_id_of(p, t@[j].0@) == Some(y) {
                                let j = choose|j: int| 0 <= j < k + 1 && #[trigger] layer_id_of(p, t@[j].0@) == Some(y);
                                if j < k {
                                    assert(mid.contains(y));
                                }
                            }
                            if ids@.contains(y) && y != id {
                                assert(mid.contains(y));
                                if !before.contains(y) {
                                    let j = choose|j: int| 0 <= j < k && #[trigger] layer_id_of(p, t@[j].0@) == Some(y);
                                    assert(0 <= j < k + 1);
                                }
                            }
                        }
                    },
                    None => {
                        assert forall|y: usize| ids@.contains(y) <==> (before.contains(y) || exists|j: int|
                            0 <= j < k + 1 && #[trigger] layer_id_of(p, t@[j].0@) == Some(y)) by {
                            if exists|j: int| 0 <= j < k + 1 && #[trigger] layer_id_of(p, t@[j].0@) == Some(y) {
                                let j = choose|j: int| 0 <= j < k + 1 && #[trigger] layer_id_of(p, t@[j].0@) == Some(y);
                                assert(j != k);
                            }
                        }
                    },
                }
                k = k + 1;
            }
            assert forall|id: usize| #[trigger] ids@.contains(id) <==> tables_layer_ids(p, tables@.take(i + 1)).contains(id) by {
                if table_layer_ids(p, t@).contains(id) {
                    let j = choose|j: int| 0 <= j < t@.len() && #[trigger] layer_id_of(p, t@[j].0@) == Some(id);
                    assert(ids@.contains(id));
                }
                if ids@.contains(id) && !before.contains(id) {
                    let j = choose|j: int| 0 <= j < t@.len() && #[trigger] layer_id_of(p, t@[j].0@) == Some(id);
                    assert(table_layer_ids(p, t@).contains(id));
                }
            }
            i = i + 1;
        }
        assert(tables@.take(i as int) =~= tables@);
        ids
    }

    /// The tensors of layer `layer_id` in each of the given files (the contents of the store's
    /// files that could be opened): from each file the tensors whose names start with the
    /// prefix, the id and a dot, each with the rest of its name (the name the tensor has within
    /// the layer). A file that is not valid safetensors gives none. `LayerNotFound` when no
    /// file has any.
    pub fn layer_tensors_in(&self, layer_id: usize, buffers: &Vec<&[u8]>) -> (r: Result<
        Vec<Vec<(String, String)>>,
        FlexLoadError,
    >)
        ensures
            ({
                let p = layer_prefix(self.layer_prefix_pattern.prefix@, layer_id);
                let bufs = buffer_views(buffers@);
                match r {
                    Ok(v) => {
                        &&& v@.len() == bufs.len()
                        &&& forall|i: int| 0 <= i < v@.len() ==> file_selection(p, bufs[i], pairs_view(#[trigger] v@[i]@))
                        &&& exists|i: int| 0 <= i < v@.len() && (#[trigger] v@[i]@).len() > 0
                    },
                    Err(e) => {
                        &&& forall|i: int| 0 <= i < bufs.len() ==> file_selection(p, #[trigger] bufs[i], Seq::empty())
                        &&& e matches FlexLoadError::LayerNotFound(id) && id == layer_id
                    },
                }
            }),
    {
        let names = names_per_buffer(buffers);
        let r = self.select_layer_tensors(layer_id, &names);
        proof {
            let p = layer_prefix(self.layer_prefix_pattern.prefix@, layer_id);
            let bufs = buffer_views(buffers@);
            let sel = names@.map_values(|f: Vec<String>| layer_tensors(p, names_view(f@)));
            assert forall|i: int| 0 <= i < bufs.len() implies lists_file_names(bufs[i], names_view(names@[i]@))
                && #[trigger] sel[i] == layer_tensors(p, names_view(names@[i]@)) by {
                assert(lists_file_names(buffers@[i]@, names_view(names@[i]@)));
            }
            if r is Ok {
                let v = r->Ok_0;
                assert forall|i: int| 0 <= i < v@.len() implies file_selection(p, bufs[i], pairs_view(#[trigger] v@[i]@)) by {
                    assert(sel[i] == layer_tensors(p, names_view(names@[i]@)));
                    assert(lists_file_names(bufs[i], names_view(names@[i]@)));
                }
                let w = choose|w: int| 0 <= w < sel.len() && (#[trigger] sel[w]).len() != 0;
                assert(pairs_view(v@[w]@).len() == v@[w]@.len());
                assert(v@[w]@.len() > 0);
            } else {
                assert forall|i: int| 0 <= i < bufs.len() implies file_selection(p, #[trigger] bufs[i], Seq::empty()) by {
                    assert(sel[i].len() == 0);
                    assert(sel[i] =~= Seq::<(Seq<char>, Seq<char>)>::empty());
                    assert(lists_file_names(bufs[i], names_view(names@[i]@)));
                }
            }
        }
        r
    }

    /// How to load layer `layer_id` from the given files (the contents of the store's files
    /// that could be opened): for each file, each tensor whose name starts with the prefix, the
    /// id and a dot, with the rest of its name, the element type it loads with (see
    /// `layer_dtype_for`), its shape and where its data lies in the file. A file that is not
    /// valid safetensors gives none. When such a tensor's element type does not load, the
    /// result is the `IoError` that names one; otherwise `LayerNotFound` when no file has any.
    pub fn layer_load_specs_in(&self, layer_id: usize, buffers: &Vec<&[u8]>) -> (r: Result<
        Vec<Vec<(String, String, LayerDtype, Vec<usize>, usize, usize)>>,
        FlexLoadError,
    >)
        ensures
            ({
                let p = layer_prefix(self.layer_prefix_pattern.prefix@, layer_id);
                let bufs = buffer_views(buffers@);
                match r {
                    Ok(v) => {
                        &&& v@.len() == bufs.len()
                        &&& forall|i: int| 0 <= i < v@.len() ==> file_load_specs(p, bufs[i], specs_view(#[trigger] v@[i]@))
                        &&& forall|i: int| 0 <= i < bufs.len() ==> !has_unloadable(p, #[trigger] bufs[i])
                        &&& exists|i: int| 0 <= i < bufs.len() && has_layer_tensor(p, #[trigger] bufs[i])
                    },
                    Err(e) => {
                        ||| exists|i: int| 0 <= i < bufs.len() && has_unloadable(p, #[trigger] bufs[i]) && (e matches FlexLoadError::IoError(m)
                            && unloadable_named(p, bufs[i], m@))
                        ||| {
                            &&& forall|i: int| 0 <= i < bufs.len() ==> !has_layer_tensor(p, #[trigger] bufs[i])
                            &&& e matches FlexLoadError::LayerNotFound(id) && id == layer_id
                        }
                    },
                }
            }),
    {
        let lp = String::from_str(self.layer_prefix_pattern.prefix.as_str()).concat(
            usize_to_decimal(layer_id).as_str(),
        ).concat(".");
        let ghost p = lp@;
        let ghost bufs = buffer_views(buffers@);
        assert(p == layer_prefix(self.layer_prefix_pattern.prefix@, layer_id));
        let mut out: Vec<Vec<(String, String, LayerDtype, Vec<usize>, usize, usize)>> = Vec::new();
        let mut found = false;
        let mut i: usize = 0;
        while i < buffers.len()
            invariant
                i <= buffers@.len(),
                p == lp@,
                p == layer_prefix(self.layer_prefix_pattern.prefix@, layer_id),
                bufs == buffer_views(buffers@),
                out@.len() == i,
                forall|j: int| 0 <= j < i ==> file_load_specs(p, bufs[j], specs_view(#[trigger] out@[j]@)),
                forall|j: int| 0 <= j < i ==> !has_unloadable(p, #[trigger] bufs[j]),
                found == exists|j: int| 0 <= j < i && has_layer_tensor(p, #[trigger] bufs[j]),
            decreases buffers@.len() - i,
        {
            assert(bufs[i as int] == buffers@[i as int]@);
            match file_specs(buffers[i], lp.as_str()) {
                Ok(v) => {
                    if v.len() > 0 {
                        found = true;
                    }
                    let ghost prev = out@;
                    out.push(v);
                    proof {
                        assert forall|j: int| 0 <= j < i + 1 implies file_load_specs(p, bufs[j], specs_view(#[trigger] out@[j]@)) by {
                            if j < i {
                                assert(out@[j] == prev[j]);
                            }
                        }
                        if found {
                            if !has_layer_tensor(p, bufs[i as int]) {
                                let w = choose|w: int| 0 <= w < i && has_layer_tensor(p, #[trigger] bufs[w]);
                                assert(0 <= w < i + 1);
                            }
                        }
                    }
                },
                Err(e) => {
                    proof {
                        assert(has_unloadable(p, bufs[i as int]));
                        let m = e->IoError_0;
                        assert(unloadable_named(p, bufs[i as int], m@));
                    }
                    return Err(e);
                },
            }
            i = i + 1;
        }
        proof {
            if !found {
                assert forall|j: int| 0 <= j < bufs.len() implies !has_layer_tensor(p, #[trigger] bufs[j]) by {
                    assert(0 <= j < i);
                }
            }
        }
        if found {
            Ok(out)
        } else {
            Err(FlexLoadError::LayerNotFound(layer_id))
        }
    }

    /// The tensors of layer `layer_id` in each file, given the tensor names of each file: the
    /// names that start with the prefix, the id and a dot, each with the rest of its name (the
    /// name the tensor has within the layer). `LayerNotFound` when no file has any.
    pub fn select_layer_tensors(&self, layer_id: usize, names_per_file: &Vec<Vec<String>>) -> (r: Result<
        Vec<Vec<(String, String)>>,
        FlexLoadError,
    >)
        ensures
            ({
                let p = layer_prefix(self.layer_prefix_pattern.prefix@, layer_id);
                let sel = names_per_file@.map_values(|f: Vec<String>| layer_tensors(p, names_view(f@)));
                match r {
                    Ok(v) => v@.len() == sel.len() && (forall|i: int| 0 <= i < sel.len() ==> pairs_view(
                        #[trigger] v@[i]@,
                    ) == sel[i]) && !all_empty(sel),
                    Err(e) => all_empty(sel) && (e matches FlexLoadError::LayerNotFound(id) && id == layer_id),
                }
            }),
    {
        let lp = String::from_str(self.layer_prefix_pattern.prefix.as_str()).concat(
            usize_to_decimal(layer_id).as_str(),
        ).concat(".");
        let ghost p = lp@;
        let ghost sel = names_per_file@.map_values(|f: Vec<String>| layer_tensors(p, names_view(f@)));
        assert(p == layer_prefix(self.layer_prefix_pattern.prefix@, layer_id));
        let n = lp.unicode_len();
        let mut out: Vec<Vec<(String, String)>> = Vec::new();
        let mut found = false;
        let mut i: usize = 0;
        while i < names_per_file.len()
            invariant
                i <= names_per_file@.len(),
                p == lp@,
                n == p.len(),
                sel == names_per_file@.map_values(|f: Vec<String>| layer_tensors(p, names_view(f@))),
                out@.len() == i,
                forall|j: int| 0 <= j < i ==> pairs_view(#[trigger] out@[j]@) == sel[j],
                found == !all_empty(sel.take(i as int)),
            decreases names_per_file@.len() - i,
        {
            let names = &names_per_file[i];
            let ghost nv = names_view(names@);
            let mut picked: Vec<(String, String)> = Vec::new();
            let mut k: usize = 0;
            while k < names.len()
                invariant
                    k <= names@.len(),
                    p == lp@,
                    n == p.len(),
                    nv == names_view(names@),
                    pairs_view(picked@) == layer_tensors(p, nv.take(k as int)),
                decreases names@.len() - k,
            {
                assert(nv.take(k + 1).drop_last() =~= nv.take(k as int));
                let name = names[k].as_str();
                if str_starts_with(name, lp.as_str()) {
                    let rest = String::from_str(name.substring_char(n, name.unicode_len()));
                    let ghost before = picked@;
                    picked.push((String::from_str(name), rest));
                    assert(pairs_view(picked@) =~= pairs_view(before).push((name@, name@.skip(p.len() as int))));
                }
                k = k + 1;
            }
            assert(nv.take(k as int) =~= nv);
            if picked.len() > 0 {
                found = true;
            }
            let ghost prev_out = out@;
            out.push(picked);
            proof {
                assert(sel[i as int] == layer_tensors(p, nv));
                assert forall|j: int| 0 <= j < i + 1 implies pairs_view(#[trigger] out@[j]@) == sel[j] by {
                    if j < i {
                        assert(out@[j] == prev_out[j]);
                    }
                }
                assert(sel.take(i + 1).drop_last() =~= sel.take(i as int));
                assert(pairs_view(picked@).len() == picked@.len());
                assert(sel.take(i + 1)[i as int] == sel[i as int]);
                if found {
                    if sel[i as int].len() == 0 {
                        let w = choose|w: int| 0 <= w < i && (#[trigger] sel.take(i as int)[w]).len() != 0;
                        assert(sel.take(i + 1)[w] == sel.take(i as int)[w]);
                    }
                } else {
                    assert forall|w: int| 0 <= w < i + 1 implies (#[trigger] sel.take(i + 1)[w]).len() == 0 by {
                        if w < i {
                            assert(sel.take(i + 1)[w] == sel.take(i as int)[w]);
                        }
                    }
                }
            }
            i = i + 1;
        }
        assert(sel.take(i as int) =~= sel);
        if found {
            Ok(out)
        } else {
            Err(FlexLoadError::LayerNotFound(layer_id))
        }
    }

    /// The bytes of tensor data of layer `layer_id` in the given files (the contents of the
    /// store's files that could be opened): the data lengths of the tensors whose names start
    /// with the prefix, the id and a dot. `LayerNotFound` when there are none.
    pub fn layer_size_in(&self, layer_id: usize, buffers: &Vec<&[u8]>) -> (r: Result<u64, FlexLoadError>)
        requires
            buffers_len(buffer_views(buffers@)) <= u64::MAX,
        ensures
            match r {
                Ok(n) => n > 0 && n == files_prefix_bytes(
                    layer_prefix(self.layer_prefix_pattern.prefix@, layer_id),
                    buffer_views(buffers@),
                ),
                Err(e) => {
                    &&& files_prefix_bytes(layer_prefix(self.layer_prefix_pattern.prefix@, layer_id), buffer_views(buffers@)) == 0
                    &&& e matches FlexLoadError::LayerNotFound(id) && id == layer_id
                },
            },
    {
        let tables = read_tables(buffers);
        self.layer_size_from_tables(layer_id, &tables)
    }

    /// The bytes of tensor data of layer `layer_id` in the given tensor tables: the lengths of
    /// the tensors whose names start with the prefix, the id and a dot. `LayerNotFound` when
    /// there are none.
    pub fn layer_size_from_tables(&self, layer_id: usize, tables: &Vec<Vec<(String, usize)>>) -> (r: Result<
        u64,
        FlexLoadError,
    >)
        requires
            tables_total(tables@) <= u64::MAX,
        ensures
            match r {
                Ok(n) => n > 0 && n == tables_prefix_bytes(layer_prefix(self.layer_prefix_pattern.prefix@, layer_id), tables@),
                Err(e) => {
                    &&& tables_prefix_bytes(layer_prefix(self.layer_prefix_pattern.prefix@, layer_id), tables@) == 0
                    &&& e matches FlexLoadError::LayerNotFound(id) && id == layer_id
                },
            },
    {
        let lp = String::from_str(self.layer_prefix_pattern.prefix.as_str()).concat(
            usize_to_decimal(layer_id).as_str(),
        ).concat(".");
        let ghost p = lp@;
        assert(p == layer_prefix(self.layer_prefix_pattern.prefix@, layer_id));
        let mut total: u64 = 0;
        let mut i: usize = 0;
        while i < tables.len()
            invariant
                i <= tables@.len(),
                p == lp@,
                tables_total(tables@) <= u64::MAX,
                total == tables_prefix_bytes(p, tables@.take(i as int)),
                total <= tables_total(tables@.take(i as int)),
            decreases tables@.len() - i,
        {
            assert(tables@.take(i + 1).drop_last() =~= tables@.take(i as int));
            assert(tables@.take(i + 1).last() == tables@[i as int]);
            proof {
                lemma_tables_total_take(tables@, i + 1);
            }
            let t = &tables[i];
            let ghost base = total;
            let mut k: usize = 0;
            while k < t.len()
                invariant
                    k <= t@.len(),
                    p == lp@,
                    base + lengths_total(t@) <= u64::MAX,
                    total == base + prefixed_sum(t@.take(k as int), p),
                decreases t@.len() - k,
            {
                assert(t@.take(k + 1).drop_last() =~= t@.take(k as int));
                proof {
                    lemma_lengths_take(t@, k + 1);
                    lemma_prefixed_le(t@.take(k + 1), p);
                }
                if str_starts_with(t[k].0.as_str(), lp.as_str()) {
                    total = total + t[k].1 as u64;
                }
                k = k + 1;
            }
            assert(t@.take(k as int) =~= t@);
            proof {
                lemma_prefixed_le(t@, p);
            }
            i = i + 1;
        }
        assert(tables@.take(i as int) =~= tables@);
        if total == 0 {
            Err(FlexLoadError::LayerNotFound(layer_id))
        } else {
            Ok(total)
        }
    }
}

} // verus!
