//! Speaker embeddings: reading them from a JSON document, and choosing the
//! embedding that conditions the enhancement of each file.

use vstd::prelude::*;
use crate::text::chars_of;
use crate::text::equals_str;

verus! {

/// A JSON value as the embedding reader sees it: an array whose elements
/// are numbers (`Some`) or anything else (`None`), or not an array.
#[derive(Debug, PartialEq)]
pub enum JsonItem<T> {
    Array(Vec<Option<T>>),
    NotArray,
}

/// The top-level value of an embedding JSON document.
#[derive(Debug, PartialEq)]
pub enum EmbeddingDocument<T> {
    /// One embedding for every file.
    Array(Vec<Option<T>>),
    /// An object from file names to embeddings, in document order.
    Object(Vec<(String, JsonItem<T>)>),
    /// Any other JSON value.
    Other,
}

/// Prior embeddings given on the command line.
#[derive(Debug, PartialEq)]
pub enum Embeddings<T> {
    /// The same embedding for every file.
    One(Vec<T>),
    /// An embedding per file name or path.
    ByFile(Vec<(String, Vec<T>)>),
}

/// Why no embedding could be had.
#[derive(Debug, Clone, Copy, PartialEq, Eq, Structural)]
pub enum EmbeddingError {
    /// The document is neither an array nor an object.
    NotArrayOrObject,
    /// An embedding is not an array.
    ValueNotArray,
    /// An embedding has the wrong number of values.
    LengthMismatch { got: usize, expected: usize },
    /// An embedding holds something that is not a number.
    NonNumber,
    /// The input file's name is not valid Unicode.
    InvalidFileName,
    /// No embedding is given for the input file.
    NotFound,
    /// No speaker model is available and no zero fallback is allowed.
    ModelMissing,
}

/// The embedding that a JSON value holds, or why it holds none: it must be
/// an array of exactly `expected` numbers.
pub open spec fn spec_json_values<T>(values: Seq<Option<T>>, expected: int) -> Result<
    Seq<T>,
    EmbeddingError,
> {
    if values.len() != expected {
        Err(EmbeddingError::LengthMismatch { got: values.len() as usize, expected: expected as usize })
    } else if exists|i: int| 0 <= i < values.len() && (#[trigger] values[i]) is None {
        Err(EmbeddingError::NonNumber)
    } else {
        Ok(Seq::new(values.len(), |i: int| values[i]->0))
    }
}

pub open spec fn spec_json_vec<T>(item: JsonItem<T>, expected: int) -> Result<
    Seq<T>,
    EmbeddingError,
> {
    match item {
        JsonItem::Array(values) => spec_json_values(values@, expected),
        JsonItem::NotArray => Err(EmbeddingError::ValueNotArray),
    }
}

/// `v` is the list of numbers that the JSON array `values` holds: one per
/// element, in order, and every element is a number.
pub open spec fn holds_numbers<T>(v: Seq<T>, values: Seq<Option<T>>) -> bool {
    &&& v.len() == values.len()
    &&& forall|i: int| 0 <= i < values.len() ==> #[trigger] values[i] == Some(v[i])
}

/// An embedding is read from a JSON array only when the array has exactly
/// the expected number of elements and all of them are numbers; the
/// embedding then is those numbers in order. An array of any other length is
/// refused as a length mismatch naming both lengths.
pub proof fn lemma_json_values_exact<T>(values: Seq<Option<T>>, expected: int)
    requires
        0 <= expected <= usize::MAX,
    ensures
        spec_json_values(values, expected) matches Ok(v) ==> values.len() == expected
            && holds_numbers(v, values),
        values.len() != expected ==> spec_json_values(values, expected) == Err::<
            Seq<T>,
            EmbeddingError,
        >(EmbeddingError::LengthMismatch { got: values.len() as usize, expected: expected as usize }),
        values.len() == expected && (forall|i: int| 0 <= i < values.len() ==> (#[trigger] values[i]) is Some)
            ==> spec_json_values(values, expected) is Ok,
        spec_json_values(values, expected) == Err::<Seq<T>, EmbeddingError>(EmbeddingError::NonNumber)
            ==> exists|i: int| 0 <= i < values.len() && (#[trigger] values[i]) is None,
{
    if spec_json_values(values, expected) is Ok && values.len() == expected {
        let v = Seq::new(values.len(), |i: int| values[i]->0);
        assert forall|i: int| 0 <= i < values.len() implies #[trigger] values[i] == Some(v[i]) by {
            assert(values[i] is Some);
        }
    }
}

fn json_values<T: Copy>(values: &Vec<Option<T>>, expected_len: usize) -> (r: Result<
    Vec<T>,
    EmbeddingError,
>)
    ensures
        match r {
            Ok(v) => spec_json_values(values@, expected_len as int) == Ok::<Seq<T>, EmbeddingError>(
                v@,
            ),
            Err(e) => spec_json_values(values@, expected_len as int) == Err::<Seq<T>, EmbeddingError>(
                e,
            ),
        },
        r matches Ok(v) ==> values@.len() == expected_len && holds_numbers(v@, values@),
        values@.len() != expected_len ==> r == Err::<Vec<T>, EmbeddingError>(
            EmbeddingError::LengthMismatch { got: values@.len() as usize, expected: expected_len },
        ),
{
    proof {
        lemma_json_values_exact(values@, expected_len as int);
    }
    if values.len() != expected_len {
        return Err(EmbeddingError::LengthMismatch { got: values.len(), expected: expected_len });
    }
    let mut out: Vec<T> = Vec::new();
    let mut i: usize = 0;
    while i < values.len()
        invariant
            i <= values@.len(),
            values@.len() == expected_len,
            out@.len() == i,
            forall|j: int| 0 <= j < i ==> (#[trigger] values@[j]) is Some,
            forall|j: int| 0 <= j < i ==> #[trigger] out@[j] == values@[j]->0,
        decreases values@.len() - i,
    {
        match &values[i] {
            Some(x) => out.push(*x),
            None => {
                assert(values@[i as int] is None);
                return Err(EmbeddingError::NonNumber);
            },
        }
        i = i + 1;
    }
    assert(out@ =~= Seq::new(values@.len(), |i: int| values@[i]->0));
    Ok(out)
}

/// The embedding held by one JSON value.
pub fn json_vec<T: Copy>(item: &JsonItem<T>, expected_len: usize) -> (r: Result<
    Vec<T>,
    EmbeddingError,
>)
    ensures
        match r {
            Ok(v) => spec_json_vec(*item, expected_len as int) == Ok::<Seq<T>, EmbeddingError>(v@),
            Err(e) => spec_json_vec(*item, expected_len as int) == Err::<Seq<T>, EmbeddingError>(e),
        },
        r matches Ok(v) ==> item matches JsonItem::Array(values) && values@.len() == expected_len
            && holds_numbers(v@, values@),
        match *item {
            JsonItem::Array(values) => values@.len() != expected_len ==> r == Err::<
                Vec<T>,
                EmbeddingError,
            >(EmbeddingError::LengthMismatch { got: values@.len() as usize, expected: expected_len }),
            JsonItem::NotArray => true,
        },
        *item matches JsonItem::NotArray ==> r == Err::<Vec<T>, EmbeddingError>(
            EmbeddingError::ValueNotArray,
        ),
{
    match item {
        JsonItem::Array(values) => json_values(values, expected_len),
        JsonItem::NotArray => Err(EmbeddingError::ValueNotArray),
    }
}

/// The per-file embeddings of an object document, read in document order;
/// the first bad value decides the error.
pub open spec fn spec_load_entries<T>(entries: Seq<(String, JsonItem<T>)>, dim: int) -> Result<
    Seq<(Seq<char>, Seq<T>)>,
    EmbeddingError,
>
    decreases entries.len(),
{
    if entries.len() == 0 {
        Ok(Seq::empty())
    } else {
        match spec_load_entries(entries.drop_last(), dim) {
            Err(e) => Err(e),
            Ok(prev) => match spec_json_vec(entries.last().1, dim) {
                Err(e) => Err(e),
                Ok(v) => Ok(prev.push((entries.last().0@, v))),
            },
        }
    }
}

/// The abstract contents of `Embeddings`.
pub enum EmbeddingsView<T> {
    One(Seq<T>),
    ByFile(Seq<(Seq<char>, Seq<T>)>),
}

pub open spec fn embeddings_view<T>(e: Embeddings<T>) -> EmbeddingsView<T> {
    match e {
        Embeddings::One(v) => EmbeddingsView::One(v@),
        Embeddings::ByFile(entries) => EmbeddingsView::ByFile(
            Seq::new(entries@.len(), |i: int| (entries@[i].0@, entries@[i].1@)),
        ),
    }
}

/// What an embedding document gives: an array is one embedding for every
/// file, an object an embedding per key, anything else is refused.
pub open spec fn spec_load_embeddings<T>(doc: EmbeddingDocument<T>, dim: int) -> Result<
    EmbeddingsView<T>,
    EmbeddingError,
> {
    match doc {
        EmbeddingDocument::Array(values) => match spec_json_values(values@, dim) {
            Ok(v) => Ok(EmbeddingsView::One(v)),
            Err(e) => Err(e),
        },
        EmbeddingDocument::Object(entries) => match spec_load_entries(entries@, dim) {
            Ok(m) => Ok(EmbeddingsView::ByFile(m)),
            Err(e) => Err(e),
        },
        EmbeddingDocument::Other => Err(EmbeddingError::NotArrayOrObject),
    }
}

/// Every per-file embedding read from an object document is the exact
/// number list of its entry: one result per entry, in order, under the
/// entry's key, each read from an array of exactly `dim` numbers.
pub proof fn lemma_load_entries_exact<T>(entries: Seq<(String, JsonItem<T>)>, dim: int)
    requires
        0 <= dim <= usize::MAX,
    ensures
        spec_load_entries(entries, dim) matches Ok(m) ==> {
            &&& m.len() == entries.len()
            &&& forall|k: int|
                0 <= k < entries.len() ==> #[trigger] m[k].0 == entries[k].0@ && (entries[k].1 matches JsonItem::Array(
                    values,
                ) && values@.len() == dim && holds_numbers(m[k].1, values@))
        },
    decreases entries.len(),
{
    if entries.len() > 0 {
        lemma_load_entries_exact(entries.drop_last(), dim);
        let last = entries.last().1;
        match last {
            JsonItem::Array(values) => {
                lemma_json_values_exact(values@, dim);
            },
            JsonItem::NotArray => {},
        }
        if let Ok(m) = spec_load_entries(entries, dim) {
            let prev = spec_load_entries(entries.drop_last(), dim)->Ok_0;
            assert(m == prev.push((entries.last().0@, spec_json_vec(last, dim)->Ok_0)));
            assert forall|k: int| 0 <= k < entries.len() implies #[trigger] m[k].0 == entries[k].0@
                && (entries[k].1 matches JsonItem::Array(values) && values@.len() == dim
                && holds_numbers(m[k].1, values@)) by {
                if k < entries.len() - 1 {
                    assert(m[k] == prev[k]);
                    assert(entries.drop_last()[k] == entries[k]);
                }
            }
        }
    }
}

/// `m` holds, entry by entry and under the same keys, the exact number
/// lists of the object entries `entries`, each an array of `dim` numbers.
pub open spec fn read_exactly<T>(
    m: Seq<(String, Vec<T>)>,
    entries: Seq<(String, JsonItem<T>)>,
    dim: int,
) -> bool {
    &&& m.len() == entries.len()
    &&& forall|k: int|
        0 <= k < entries.len() ==> #[trigger] m[k].0@ == entries[k].0@ && (entries[k].1 matches JsonItem::Array(
            values,
        ) && values@.len() == dim && holds_numbers(m[k].1@, values@))
}

/// Reads the prior embeddings of an embedding document.
#[verifier::loop_isolation(false)]
pub fn load_embeddings<T: Copy>(doc: &EmbeddingDocument<T>, embed_dim: usize) -> (r: Result<
    Embeddings<T>,
    EmbeddingError,
>)
    ensures
        match r {
            Ok(e) => spec_load_embeddings(*doc, embed_dim as int) == Ok::<
                EmbeddingsView<T>,
                EmbeddingError,
            >(embeddings_view(e)),
            Err(e) => spec_load_embeddings(*doc, embed_dim as int) == Err::<
                EmbeddingsView<T>,
                EmbeddingError,
            >(e),
        },
        r matches Ok(Embeddings::One(v)) ==> doc matches EmbeddingDocument::Array(values)
            && values@.len() == embed_dim && holds_numbers(v@, values@),
        match r {
            Ok(Embeddings::ByFile(m)) => match *doc {
                EmbeddingDocument::Object(entries) => read_exactly(m@, entries@, embed_dim as int),
                _ => false,
            },
            _ => true,
        },
        match *doc {
            EmbeddingDocument::Array(values) => values@.len() != embed_dim ==> r == Err::<
                Embeddings<T>,
                EmbeddingError,
            >(EmbeddingError::LengthMismatch { got: values@.len() as usize, expected: embed_dim }),
            _ => true,
        },
        *doc matches EmbeddingDocument::Other ==> r == Err::<Embeddings<T>, EmbeddingError>(
            EmbeddingError::NotArrayOrObject,
        ),
{
    match doc {
        EmbeddingDocument::Array(values) => match json_values(values, embed_dim) {
            Ok(v) => Ok(Embeddings::One(v)),
            Err(e) => Err(e),
        },
        EmbeddingDocument::Object(entries) => {
            let mut by_file: Vec<(String, Vec<T>)> = Vec::new();
            let mut i: usize = 0;
            assert(entries@.take(0) =~= Seq::<(String, JsonItem<T>)>::empty());
            assert(Seq::new(by_file@.len(), |k: int| (by_file@[k].0@, by_file@[k].1@)) =~= Seq::<
                (Seq<char>, Seq<T>),
            >::empty());
            while i < entries.len()
                invariant
                    i <= entries@.len(),
                    by_file@.len() == i,
                    spec_load_entries(entries@.take(i as int), embed_dim as int) == Ok::<
                        Seq<(Seq<char>, Seq<T>)>,
                        EmbeddingError,
                    >(Seq::new(by_file@.len(), |k: int| (by_file@[k].0@, by_file@[k].1@))),
                decreases entries@.len() - i,
            {
                let ghost prev = Seq::new(by_file@.len(), |k: int| (by_file@[k].0@, by_file@[k].1@));
                assert(entries@.take(i + 1).drop_last() =~= entries@.take(i as int));
                assert(entries@.take(i + 1).last() == entries@[i as int]);
                let (key, item) = &entries[i];
                match json_vec(item, embed_dim) {
                    Ok(v) => {
                        by_file.push((key.clone(), v));
                        assert(Seq::new(by_file@.len(), |k: int| (by_file@[k].0@, by_file@[k].1@))
                            =~= prev.push((entries@[i as int].0@, by_file@[i as int].1@)));
                    },
                    Err(e) => {
                        proof {
                            lemma_load_entries_error_persists(entries@, embed_dim as int, i + 1);
                        }
                        return Err(e);
                    },
                }
                i = i + 1;
            }
            assert(entries@.take(entries@.len() as int) =~= entries@);
            proof {
                assert(entries@.take(entries@.len() as int) =~= entries@);
                lemma_load_entries_exact(entries@, embed_dim as int);
                assert(by_file@.len() == entries@.len());
                let m = Seq::new(by_file@.len(), |k: int| (by_file@[k].0@, by_file@[k].1@));
                assert forall|k: int| 0 <= k < entries@.len() implies #[trigger] by_file@[k].0@
                    == entries@[k].0@ && (entries@[k].1 matches JsonItem::Array(values)
                    && values@.len() == embed_dim && holds_numbers(by_file@[k].1@, values@)) by {
                    assert(m[k] == (by_file@[k].0@, by_file@[k].1@));
                    assert(m[k].0 == entries@[k].0@);
                }
                assert(read_exactly(by_file@, entries@, embed_dim as int));
            }
            Ok(Embeddings::ByFile(by_file))
        },
        EmbeddingDocument::Other => Err(EmbeddingError::NotArrayOrObject),
    }
}

proof fn lemma_load_entries_error_persists<T>(
    entries: Seq<(String, JsonItem<T>)>,
    dim: int,
    k: int,
)
    requires
        0 <= k <= entries.len(),
        spec_load_entries(entries.take(k), dim) is Err,
    ensures
        spec_load_entries(entries, dim) == spec_load_entries(entries.take(k), dim),
    decreases entries.len() - k,
{
    if k < entries.len() {
        assert(entries.take(k + 1).drop_last() =~= entries.take(k));
        lemma_load_entries_error_persists(entries, dim, k + 1);
    } else {
        assert(entries.take(k) =~= entries);
    }
}

/// The embedding stored under `key`: the last entry with that key, as in a
/// map filled entry by entry.
pub open spec fn spec_lookup<T>(entries: Seq<(Seq<char>, Seq<T>)>, key: Seq<char>) -> Option<Seq<T>>
    decreases entries.len(),
{
    if entries.len() == 0 {
        None
    } else if entries.last().0 == key {
        Some(entries.last().1)
    } else {
        spec_lookup(entries.drop_last(), key)
    }
}

pub open spec fn entries_view<T>(entries: Seq<(String, Vec<T>)>) -> Seq<(Seq<char>, Seq<T>)> {
    Seq::new(entries.len(), |i: int| (entries[i].0@, entries[i].1@))
}

fn copy_values<T: Copy>(v: &Vec<T>) -> (out: Vec<T>)
    ensures
        out@ == v@,
{
    let mut out: Vec<T> = Vec::new();
    let mut i: usize = 0;
    while i < v.len()
        invariant
            i <= v@.len(),
            out@ == v@.take(i as int),
        decreases v@.len() - i,
    {
        out.push(v[i]);
        i = i + 1;
    }
    assert(out@ =~= v@);
    out
}

/// A lookup finds the last entry stored under the key, and finds nothing
/// exactly when no entry has that key.
pub proof fn lemma_lookup_last_match<T>(entries: Seq<(Seq<char>, Seq<T>)>, key: Seq<char>)
    ensures
        spec_lookup(entries, key) matches Some(v) ==> exists|k: int|
            0 <= k < entries.len() && #[trigger] entries[k].0 == key && entries[k].1 == v && forall|j: int|
                k < j < entries.len() ==> #[trigger] entries[j].0 != key,
        spec_lookup(entries, key) is None <==> forall|k: int|
            0 <= k < entries.len() ==> #[trigger] entries[k].0 != key,
    decreases entries.len(),
{
    if entries.len() > 0 {
        let prev = entries.drop_last();
        lemma_lookup_last_match(prev, key);
        let n = entries.len() - 1;
        if entries.last().0 == key {
            assert(entries[n].0 == key);
        } else {
            if let Some(v) = spec_lookup(prev, key) {
                let k = choose|k: int|
                    0 <= k < prev.len() && #[trigger] prev[k].0 == key && prev[k].1 == v && forall|j: int|
                        k < j < prev.len() ==> #[trigger] prev[j].0 != key;
                assert(entries[k] == prev[k]);
                assert forall|j: int| k < j < entries.len() implies #[trigger] entries[j].0 != key by {
                    if j < n {
                        assert(entries[j] == prev[j]);
                    }
                }
            }
            assert forall|k: int| 0 <= k < n implies #[trigger] entries[k] == prev[k] by {}
        }
    }
}

proof fn lemma_lookup_entries<T>(entries: Seq<(String, Vec<T>)>, key: Seq<char>)
    ensures
        spec_lookup(entries_view(entries), key) matches Some(v) ==> exists|k: int|
            0 <= k < entries.len() && #[trigger] entries[k].0@ == key && entries[k].1@ == v
                && forall|j: int| k < j < entries.len() ==> #[trigger] entries[j].0@ != key,
        spec_lookup(entries_view(entries), key) is None <==> forall|k: int|
            0 <= k < entries.len() ==> #[trigger] entries[k].0@ != key,
{
    let ev = entries_view(entries);
    lemma_lookup_last_match(ev, key);
    assert forall|k: int| 0 <= k < entries.len() implies #[trigger] ev[k] == (
        entries[k].0@,
        entries[k].1@,
    ) by {}
    if let Some(v) = spec_lookup(ev, key) {
        let k = choose|k: int|
            0 <= k < ev.len() && #[trigger] ev[k].0 == key && ev[k].1 == v && forall|j: int|
                k < j < ev.len() ==> #[trigger] ev[j].0 != key;
        assert(ev[k] == (entries[k].0@, entries[k].1@));
        assert forall|j: int| k < j < entries.len() implies #[trigger] entries[j].0@ != key by {
            assert(ev[j] == (entries[j].0@, entries[j].1@));
            assert(ev[j].0 != key);
        }
    }
    if spec_lookup(ev, key) is None {
        assert forall|k: int| 0 <= k < entries.len() implies #[trigger] entries[k].0@ != key by {
            assert(ev[k] == (entries[k].0@, entries[k].1@));
            assert(ev[k].0 != key);
        }
    } else {
        assert(!(forall|k: int| 0 <= k < ev.len() ==> #[trigger] ev[k].0 != key));
        let k = choose|k: int| 0 <= k < ev.len() && !(#[trigger] ev[k].0 != key);
        assert(ev[k] == (entries[k].0@, entries[k].1@));
    }
}

/// The embedding stored under `key` in per-file embeddings.
#[verifier::loop_isolation(false)]
pub fn lookup_embedding<T: Copy>(entries: &Vec<(String, Vec<T>)>, key: &str) -> (r: Option<Vec<T>>)
    ensures
        match r {
            Some(v) => spec_lookup(entries_view(entries@), key@) == Some(v@),
            None => spec_lookup(entries_view(entries@), key@) is None,
        },
        r matches Some(v) ==> exists|k: int|
            0 <= k < entries@.len() && #[trigger] entries@[k].0@ == key@ && entries@[k].1@ == v@
                && forall|j: int| k < j < entries@.len() ==> #[trigger] entries@[j].0@ != key@,
        r is None <==> forall|k: int| 0 <= k < entries@.len() ==> #[trigger] entries@[k].0@ != key@,
{
    proof {
        lemma_lookup_entries(entries@, key@);
    }
    let ghost all = entries_view(entries@);
    let mut i: usize = entries.len();
    assert(all.take(i as int) =~= all);
    while i > 0
        invariant
            i <= entries@.len(),
            all == entries_view(entries@),
            spec_lookup(all, key@) == spec_lookup(all.take(i as int), key@),
        decreases i,
    {
        let ghost prefix = all.take(i as int);
        assert(prefix.drop_last() =~= all.take(i - 1));
        assert(prefix.last() == all[i - 1]);
        let k = chars_of(entries[i - 1].0.as_str());
        if equals_str(&k, key) {
            return Some(copy_values(&entries[i - 1].1));
        }
        i = i - 1;
    }
    None
}

/// Where the embedding of one input file comes from.
#[derive(Debug, PartialEq)]
pub enum EmbeddingSource<T> {
    /// Given on the command line.
    Given(Vec<T>),
    /// All zeros, because no speaker model is available.
    ZeroFallback(Vec<T>),
    /// To be extracted from the audio by the speaker model.
    Extract,
}

/// `dim` copies of `zero`.
pub open spec fn spec_zeros<T>(zero: T, dim: int) -> Seq<T> {
    Seq::new(dim as nat, |i: int| zero)
}

fn zeros<T: Copy>(zero: T, dim: usize) -> (out: Vec<T>)
    ensures
        out@ == spec_zeros(zero, dim as int),
{
    let mut out: Vec<T> = Vec::new();
    let mut i: usize = 0;
    while i < dim
        invariant
            i <= dim,
            out@ == spec_zeros(zero, i as int),
        decreases dim - i,
    {
        out.push(zero);
        i = i + 1;
        assert(out@ =~= spec_zeros(zero, i as int));
    }
    out
}

/// The abstract contents of `EmbeddingSource`.
pub enum SourceView<T> {
    Given(Seq<T>),
    ZeroFallback(Seq<T>),
    Extract,
}

pub open spec fn source_view<T>(s: EmbeddingSource<T>) -> SourceView<T> {
    match s {
        EmbeddingSource::Given(v) => SourceView::Given(v@),
        EmbeddingSource::ZeroFallback(v) => SourceView::ZeroFallback(v@),
        EmbeddingSource::Extract => SourceView::Extract,
    }
}

/// Where the embedding of a file comes from: one given embedding serves
/// every file; per-file embeddings are looked up by the file's name, then
/// by its whole path; without given embeddings the speaker model extracts
/// one, and without a model zeros stand in only when allowed.
pub open spec fn spec_embedding_for_file<T>(
    file_name: Option<Seq<char>>,
    full_path: Seq<char>,
    embeddings: Option<EmbeddingsView<T>>,
    model_available: bool,
    embed_dim: int,
    allow_zero: bool,
    zero: T,
) -> Result<SourceView<T>, EmbeddingError> {
    match embeddings {
        Some(EmbeddingsView::One(v)) => Ok(SourceView::Given(v)),
        Some(EmbeddingsView::ByFile(entries)) => match file_name {
            None => Err(EmbeddingError::InvalidFileName),
            Some(name) => match spec_lookup(entries, name) {
                Some(v) => Ok(SourceView::Given(v)),
                None => match spec_lookup(entries, full_path) {
                    Some(v) => Ok(SourceView::Given(v)),
                    None => Err(EmbeddingError::NotFound),
                },
            },
        },
        None => if model_available {
            Ok(SourceView::Extract)
        } else if allow_zero {
            Ok(SourceView::ZeroFallback(spec_zeros(zero, embed_dim)))
        } else {
            Err(EmbeddingError::ModelMissing)
        },
    }
}

/// Without given embeddings, the speaker model is used whenever it is
/// available, whether or not zeros are allowed; zeros stand in only when there
/// is no model and they are allowed, and then there are `embed_dim` of them.
pub proof fn lemma_model_before_zeros<T>(
    file_name: Option<Seq<char>>,
    full_path: Seq<char>,
    embeddings: Option<EmbeddingsView<T>>,
    model_available: bool,
    embed_dim: int,
    allow_zero: bool,
    zero: T,
)
    requires
        0 <= embed_dim,
    ensures
        embeddings is None && model_available ==> spec_embedding_for_file(
            file_name,
            full_path,
            embeddings,
            model_available,
            embed_dim,
            allow_zero,
            zero,
        ) == Ok::<SourceView<T>, EmbeddingError>(SourceView::Extract),
        spec_embedding_for_file(
            file_name,
            full_path,
            embeddings,
            model_available,
            embed_dim,
            allow_zero,
            zero,
        ) matches Ok(SourceView::ZeroFallback(v)) ==> embeddings is None && !model_available
            && allow_zero && v.len() == embed_dim && forall|i: int| 0 <= i < v.len() ==> #[trigger] v[i] == zero,
        spec_embedding_for_file(
            file_name,
            full_path,
            embeddings,
            model_available,
            embed_dim,
            allow_zero,
            zero,
        ) matches Ok(SourceView::Extract) ==> embeddings is None && model_available,
{
}

/// Decides where the embedding of one input file comes from. `file_name`
/// is the file's name when it is valid Unicode, `full_path` its whole path.
pub fn embedding_for_file<T: Copy>(
    file_name: Option<&str>,
    full_path: &str,
    embeddings: Option<&Embeddings<T>>,
    model_available: bool,
    embed_dim: usize,
    allow_zero: bool,
    zero: T,
) -> (r: Result<EmbeddingSource<T>, EmbeddingError>)
    ensures
        ({
            let spec = spec_embedding_for_file(
                match file_name {
                    Some(n) => Some(n@),
                    None => None,
                },
                full_path@,
                match embeddings {
                    Some(e) => Some(embeddings_view(*e)),
                    None => None,
                },
                model_available,
                embed_dim as int,
                allow_zero,
                zero,
            );
            match r {
                Ok(s) => spec == Ok::<SourceView<T>, EmbeddingError>(source_view(s)),
                Err(e) => spec == Err::<SourceView<T>, EmbeddingError>(e),
            }
        }),
        embeddings is None && model_available ==> r matches Ok(EmbeddingSource::Extract),
        embeddings is None && !model_available && allow_zero ==> (r matches Ok(
            EmbeddingSource::ZeroFallback(v),
        ) && v@.len() == embed_dim && forall|i: int| 0 <= i < v@.len() ==> #[trigger] v@[i] == zero),
        embeddings is None && !model_available && !allow_zero ==> r == Err::<
            EmbeddingSource<T>,
            EmbeddingError,
        >(EmbeddingError::ModelMissing),
        r matches Ok(EmbeddingSource::ZeroFallback(_)) ==> embeddings is None && !model_available
            && allow_zero,
        r matches Ok(EmbeddingSource::Extract) ==> embeddings is None && model_available,
        match embeddings {
            Some(e) => match *e {
                Embeddings::One(v) => r matches Ok(EmbeddingSource::Given(w)) && w@ == v@,
                Embeddings::ByFile(entries) => match file_name {
                    None => r == Err::<EmbeddingSource<T>, EmbeddingError>(
                        EmbeddingError::InvalidFileName,
                    ),
                    Some(name) => match r {
                        Ok(EmbeddingSource::Given(w)) => exists|k: int|
                            0 <= k < entries@.len() && #[trigger] entries@[k].1@ == w@ && (
                            entries@[k].0@ == name@ || (entries@[k].0@ == full_path@ && forall|j: int|
                                0 <= j < entries@.len() ==> #[trigger] entries@[j].0@ != name@)),
                        Err(e) => e == EmbeddingError::NotFound && forall|k: int|
                            0 <= k < entries@.len() ==> #[trigger] entries@[k].0@ != name@
                                && entries@[k].0@ != full_path@,
                        _ => false,
                    },
                },
            },
            None => true,
        },
{
    match embeddings {
        Some(Embeddings::One(values)) => Ok(EmbeddingSource::Given(copy_values(values))),
        Some(Embeddings::ByFile(entries)) => match file_name {
            None => Err(EmbeddingError::InvalidFileName),
            Some(name) => match lookup_embedding(entries, name) {
                Some(v) => Ok(EmbeddingSource::Given(v)),
                None => match lookup_embedding(entries, full_path) {
                    Some(v) => Ok(EmbeddingSource::Given(v)),
                    None => Err(EmbeddingError::NotFound),
                },
            },
        },
        None => if model_available {
            Ok(EmbeddingSource::Extract)
        } else if allow_zero {
            Ok(EmbeddingSource::ZeroFallback(zeros(zero, embed_dim)))
        } else {
            Err(EmbeddingError::ModelMissing)
        },
    }
}

/// Why the speaker model gave no usable embedding.
#[derive(Debug, PartialEq)]
pub enum ExtractionFailure<E> {
    /// The model run failed.
    Model(E),
    /// The model's embedding has the wrong length.
    LengthMismatch { got: usize, expected: usize },
}

/// Checks the speaker model's result. A failure falls back to zeros when
/// allowed, and is then returned beside them so that it can be reported.
pub fn finish_extraction<T: Copy, E>(
    extracted: Result<Vec<T>, E>,
    embed_dim: usize,
    allow_zero: bool,
    zero: T,
) -> (r: Result<(Vec<T>, Option<ExtractionFailure<E>>), ExtractionFailure<E>>)
    ensures
        ({
            let failure: Option<ExtractionFailure<E>> = match extracted {
                Ok(v) => if v@.len() == embed_dim {
                    None
                } else {
                    Some(ExtractionFailure::LengthMismatch { got: v@.len() as usize, expected: embed_dim })
                },
                Err(e) => Some(ExtractionFailure::Model(e)),
            };
            match failure {
                None => r matches Ok((v, None)) && extracted matches Ok(w) && v@ == w@,
                Some(f) => if allow_zero {
                    r matches Ok((v, Some(g))) && v@ == spec_zeros(zero, embed_dim as int) && g == f
                } else {
                    r matches Err(g) && g == f
                },
            }
        }),
{
    let failure = match extracted {
        Ok(v) => {
            if v.len() == embed_dim {
                return Ok((v, None));
            }
            ExtractionFailure::LengthMismatch { got: v.len(), expected: embed_dim }
        },
        Err(e) => ExtractionFailure::Model(e),
    };
    if allow_zero {
        Ok((zeros(zero, embed_dim), Some(failure)))
    } else {
        Err(failure)
    }
}

} // verus!
