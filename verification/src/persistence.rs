//! Content-addressed payloads and the attribute index.
//!
//! A content or attribute identifier is derived from its inputs alone —
//! `derived_id` is the lowercase hex of a 64-bit FNV-1a hash of the
//! canonical pair encoding — so re-inserting the same logical content is
//! idempotent.  The attribute index upserts by that id: re-extraction for
//! the same (content id, extractor) pair overwrites the stored data instead
//! of adding a row.

use vstd::prelude::*;
use vstd::string::StringExecFns;

use std::collections::HashMap;

use crate::codec::{enc_string, lemma_enc_pair_injective, push_enc_str};
use crate::hashing::{fnv1a, fnv1a_exec, hex_digit, hex_of, push_hex};
use crate::strutil::string_of_chars;

verus! {

// ---------------------------------------------------------------------------
// Opaque structured values
// ---------------------------------------------------------------------------
/// Structured attribute data is carried through as `serde_json::Value`; the
/// crate never looks inside one.
#[verifier::external_type_specification]
#[verifier::external_body]
pub struct ExValue(serde_json::Value);

/// Relies on `serde_json::Value::clone`: the copy equals the original value.
pub assume_specification[ <serde_json::Value as Clone>::clone ](v: &serde_json::Value) -> (r:
    serde_json::Value)
    ensures
        r == *v,
;

// ---------------------------------------------------------------------------
// Content addressing
// ---------------------------------------------------------------------------
/// The canonical hash input of a pair: both parts framed by the string
/// encoding, so distinct pairs give distinct inputs.
pub open spec fn pair_input(a: Seq<char>, b: Seq<char>) -> Seq<char> {
    enc_string(a) + enc_string(b)
}

/// A stable identifier derived from a pair of strings: lowercase hex of the
/// 64-bit FNV-1a hash of the canonical pair input.
pub open spec fn derived_id(a: Seq<char>, b: Seq<char>) -> Seq<char> {
    hex_of(fnv1a(pair_input(a, b)))
}

pub fn derived_id_exec(a: &str, b: &str) -> (r: String)
    ensures
        r@ == derived_id(a@, b@),
{
    let mut buf: Vec<char> = Vec::new();
    push_enc_str(a, &mut buf);
    push_enc_str(b, &mut buf);
    let h = fnv1a_exec(&buf);
    let mut out: Vec<char> = Vec::new();
    push_hex(h, &mut out);
    proof {
        assert(buf@ == pair_input(a@, b@));
        assert(out@ =~= hex_of(h));
    }
    string_of_chars(&out)
}

/// The canonical pair input is injective: distinct pairs never share a hash
/// input, so two derived ids can only coincide if the 64-bit hashes collide.
pub proof fn lemma_pair_input_injective(a1: Seq<char>, b1: Seq<char>, a2: Seq<char>, b2: Seq<char>)
    requires
        pair_input(a1, b1) == pair_input(a2, b2),
    ensures
        a1 == a2,
        b1 == b2,
{
    lemma_enc_pair_injective(a1, b1, a2, b2);
}

proof fn lemma_hex_of_len(n: u64)
    ensures
        hex_of(n).len() >= 1,
        n >= 16 ==> hex_of(n).len() >= 2,
    decreases n,
{
    if n >= 16 {
        lemma_hex_of_len(n / 16);
    }
}

/// Hex rendering is injective: equal ids mean equal hashes.
pub proof fn lemma_hex_of_injective(a: u64, b: u64)
    requires
        hex_of(a) == hex_of(b),
    ensures
        a == b,
    decreases a,
{
    lemma_hex_of_len(a);
    lemma_hex_of_len(b);
    if a < 16 && b < 16 {
        assert(hex_of(a)[0] == hex_digit(a));
        assert(hex_of(b)[0] == hex_digit(b));
        assert(hex_digit(a) == hex_digit(b));
        assert(a == b);
    } else if a < 16 {
        assert(hex_of(a).len() == 1);
        assert(false);
    } else if b < 16 {
        assert(hex_of(b).len() == 1);
        assert(false);
    } else {
        let s1 = hex_of(a / 16);
        let s2 = hex_of(b / 16);
        assert(hex_of(a).last() == hex_digit(a % 16));
        assert(hex_of(b).last() == hex_digit(b % 16));
        assert(a % 16 == b % 16);
        assert(hex_of(a).drop_last() =~= s1);
        assert(hex_of(b).drop_last() =~= s2);
        lemma_hex_of_injective(a / 16, b / 16);
        assert(a == 16 * (a / 16) + a % 16);
        assert(b == 16 * (b / 16) + b % 16);
    }
}

/// Distinct hashes give distinct derived ids: changing either part of the
/// pair changes the id whenever the underlying 64-bit hashes differ.
pub proof fn lemma_derived_id_distinct(a1: Seq<char>, b1: Seq<char>, a2: Seq<char>, b2: Seq<char>)
    requires
        fnv1a(pair_input(a1, b1)) != fnv1a(pair_input(a2, b2)),
    ensures
        derived_id(a1, b1) != derived_id(a2, b2),
{
    if derived_id(a1, b1) == derived_id(a2, b2) {
        lemma_hex_of_injective(fnv1a(pair_input(a1, b1)), fnv1a(pair_input(a2, b2)));
    }
}

// ---------------------------------------------------------------------------
// Content payloads
// ---------------------------------------------------------------------------
/// How a payload is stored: inline text, or a pointer into blob storage.
#[derive(Clone, Copy, PartialEq, Eq, Structural, Debug)]
pub enum PayloadType {
    EmbeddedStorage,
    BlobStorageLink,
}

/// The wire label of a payload type.
pub open spec fn payload_type_label(p: PayloadType) -> Seq<char> {
    match p {
        PayloadType::EmbeddedStorage => "embedded_storage"@,
        PayloadType::BlobStorageLink => "blob_storage_link"@,
    }
}

impl Default for PayloadType {
    /// Payloads are embedded unless said otherwise.
    fn default() -> (r: Self)
        ensures
            r == PayloadType::EmbeddedStorage,
    {
        PayloadType::EmbeddedStorage
    }
}

impl PayloadType {
    /// The wire label of the variant.
    pub fn label(&self) -> (r: String)
        ensures
            r@ == payload_type_label(*self),
    {
        match self {
            PayloadType::EmbeddedStorage => String::from_str("embedded_storage"),
            PayloadType::BlobStorageLink => String::from_str("blob_storage_link"),
        }
    }

    /// Parse a wire label; exactly the two labels are accepted.
    pub fn from_label(s: &str) -> (r: Option<PayloadType>)
        ensures
            (match r {
                Some(p) => s@ == payload_type_label(p),
                None => s@ != payload_type_label(PayloadType::EmbeddedStorage) && s@
                    != payload_type_label(PayloadType::BlobStorageLink),
            }),
    {
        let owned = s.to_owned();
        if owned == String::from_str("embedded_storage") {
            Some(PayloadType::EmbeddedStorage)
        } else if owned == String::from_str("blob_storage_link") {
            Some(PayloadType::BlobStorageLink)
        } else {
            None
        }
    }
}

/// The mime type that a file name's extension maps to.
pub uninterp spec fn mime_of(name: Seq<char>) -> Seq<char>;

/// Relies on `mime_guess::from_path` and `Mime::essence_str`: the guess is a
/// fixed lookup of the name's extension (`application/octet-stream` when no
/// extension matches), a function of the name alone.
#[verifier::external_body]
fn guess_mime(name: &str) -> (r: String)
    ensures
        r@ == mime_of(name@),
{
    mime_guess::from_path(name).first_or_octet_stream().essence_str().to_owned()
}

/// A payload handed to or produced by extraction, with a content-addressed
/// id: the id depends on the repository and the content alone, never on the
/// metadata, so re-insertion of the same logical content is idempotent.
#[derive(Debug)]
pub struct ContentPayload {
    pub id: String,
    pub content_type: String,
    pub payload: String,
    pub payload_type: PayloadType,
    pub metadata: HashMap<String, serde_json::Value>,
}

impl ContentPayload {
    /// Inline text content: the id is derived from repository and text.
    pub fn from_text(
        repository: &str,
        text: &str,
        metadata: HashMap<String, serde_json::Value>,
    ) -> (r: ContentPayload)
        ensures
            r.id@ == derived_id(repository@, text@),
            r.content_type@ == "text/plain"@,
            r.payload@ == text@,
            r.payload_type == PayloadType::EmbeddedStorage,
            r.metadata == metadata,
    {
        ContentPayload {
            id: derived_id_exec(repository, text),
            content_type: String::from_str("text/plain"),
            payload: text.to_owned(),
            payload_type: PayloadType::EmbeddedStorage,
            metadata,
        }
    }

    /// Blob-stored file content: the id is derived from repository and file
    /// name, the mime type from the file name's extension.
    pub fn from_file(repository: &str, name: &str, path: &str) -> (r: ContentPayload)
        ensures
            r.id@ == derived_id(repository@, name@),
            r.content_type@ == mime_of(name@),
            r.payload@ == path@,
            r.payload_type == PayloadType::BlobStorageLink,
    {
        ContentPayload {
            id: derived_id_exec(repository, name),
            content_type: guess_mime(name),
            payload: path.to_owned(),
            payload_type: PayloadType::BlobStorageLink,
            metadata: HashMap::new(),
        }
    }
}

/// One extracted text chunk with its provenance.
pub struct ChunkWithMetadata {
    pub chunk_id: String,
    pub content_id: String,
    pub text: String,
    pub metadata: HashMap<String, serde_json::Value>,
}

// ---------------------------------------------------------------------------
// Extracted attributes and their index
// ---------------------------------------------------------------------------
/// Mathematical value of an [`ExtractedAttributes`].
pub ghost struct ExtractedAttributesV {
    pub id: Seq<char>,
    pub content_id: Seq<char>,
    pub attributes: serde_json::Value,
    pub extractor_name: Seq<char>,
}

/// Attributes one extractor produced for one content item.  The id is
/// derived from the (content id, extractor name) pair, so re-extraction
/// lands on the same row.
#[derive(Debug)]
pub struct ExtractedAttributes {
    pub id: String,
    pub content_id: String,
    pub attributes: serde_json::Value,
    pub extractor_name: String,
}

impl View for ExtractedAttributes {
    type V = ExtractedAttributesV;

    open spec fn view(&self) -> ExtractedAttributesV {
        ExtractedAttributesV {
            id: self.id@,
            content_id: self.content_id@,
            attributes: self.attributes,
            extractor_name: self.extractor_name@,
        }
    }
}

impl ExtractedAttributes {
    pub fn new(content_id: &str, attributes: serde_json::Value, extractor_name: &str) -> (r: Self)
        ensures
            r.id@ == derived_id(content_id@, extractor_name@),
            r.content_id@ == content_id@,
            r.attributes == attributes,
            r.extractor_name@ == extractor_name@,
    {
        ExtractedAttributes {
            id: derived_id_exec(content_id, extractor_name),
            content_id: content_id.to_owned(),
            attributes,
            extractor_name: extractor_name.to_owned(),
        }
    }
}

/// Mathematical value of an [`AttributeRow`].
pub ghost struct AttributeRowV {
    pub id: Seq<char>,
    pub repository_id: Seq<char>,
    pub index_name: Seq<char>,
    pub extractor_id: Seq<char>,
    pub data: serde_json::Value,
    pub content_id: Seq<char>,
    pub created_at: u64,
}

/// One stored row of the attribute index.
#[derive(Debug)]
pub struct AttributeRow {
    pub id: String,
    pub repository_id: String,
    pub index_name: String,
    pub extractor_id: String,
    pub data: serde_json::Value,
    pub content_id: String,
    pub created_at: u64,
}

impl View for AttributeRow {
    type V = AttributeRowV;

    open spec fn view(&self) -> AttributeRowV {
        AttributeRowV {
            id: self.id@,
            repository_id: self.repository_id@,
            index_name: self.index_name@,
            extractor_id: self.extractor_id@,
            data: self.data,
            content_id: self.content_id@,
            created_at: self.created_at,
        }
    }
}

impl From<AttributeRow> for ExtractedAttributes {
    fn from(model: AttributeRow) -> (r: ExtractedAttributes) {
        ExtractedAttributes {
            id: model.id,
            content_id: model.content_id,
            attributes: model.data,
            extractor_name: model.extractor_id,
        }
    }
}

impl vstd::std_specs::convert::FromSpecImpl<AttributeRow> for ExtractedAttributes {
    open spec fn obeys_from_spec() -> bool {
        true
    }

    open spec fn from_spec(model: AttributeRow) -> ExtractedAttributes {
        ExtractedAttributes {
            id: model.id,
            content_id: model.content_id,
            attributes: model.data,
            extractor_name: model.extractor_id,
        }
    }
}

/// The first index holding a row with the id, or `-1`.
pub open spec fn find_row(rows: Seq<AttributeRowV>, id: Seq<char>, i: int) -> int
    decreases rows.len() - i,
{
    if i < 0 || i >= rows.len() {
        -1
    } else if rows[i].id == id {
        i
    } else {
        find_row(rows, id, i + 1)
    }
}

/// What an upsert keeps of an existing row: everything but the data and the
/// creation stamp, which the new extraction overwrites.
pub open spec fn merged_row(prev: AttributeRowV, e: ExtractedAttributesV) -> AttributeRowV {
    AttributeRowV { data: e.attributes, created_at: 0, ..prev }
}

/// The row a first-time insert stores.
pub open spec fn fresh_row(repo: Seq<char>, index: Seq<char>, e: ExtractedAttributesV) -> AttributeRowV {
    AttributeRowV {
        id: e.id,
        repository_id: repo,
        index_name: index,
        extractor_id: e.extractor_name,
        data: e.attributes,
        content_id: e.content_id,
        created_at: 0,
    }
}

/// The upsert rule of the attribute index: overwrite the row with the same
/// id if one exists, append a fresh row otherwise.
pub open spec fn upsert_rows(
    rows: Seq<AttributeRowV>,
    repo: Seq<char>,
    index: Seq<char>,
    e: ExtractedAttributesV,
) -> Seq<AttributeRowV> {
    let k = find_row(rows, e.id, 0);
    if k < 0 {
        rows.push(fresh_row(repo, index, e))
    } else {
        rows.update(k, merged_row(rows[k], e))
    }
}

/// Row ids are pairwise distinct.
pub open spec fn wf_rows(rows: Seq<AttributeRowV>) -> bool {
    forall|j: int, k: int| 0 <= j < k < rows.len() ==> rows[j].id != rows[k].id
}

/// Does a row match an attribute query?
pub open spec fn row_matches(
    r: AttributeRowV,
    repo: Seq<char>,
    index: Seq<char>,
    cid: Option<Seq<char>>,
) -> bool {
    &&& r.repository_id == repo
    &&& r.index_name == index
    &&& (match cid {
        None => true,
        Some(c) => r.content_id == c,
    })
}

/// The extracted attributes a row yields.
pub open spec fn row_to_extracted(r: AttributeRowV) -> ExtractedAttributesV {
    ExtractedAttributesV {
        id: r.id,
        content_id: r.content_id,
        attributes: r.data,
        extractor_name: r.extractor_id,
    }
}

/// All matching rows of `rows[i..]`, in storage order, as extracted
/// attributes.
pub open spec fn query_rows(
    rows: Seq<AttributeRowV>,
    repo: Seq<char>,
    index: Seq<char>,
    cid: Option<Seq<char>>,
    i: int,
) -> Seq<ExtractedAttributesV>
    decreases rows.len() - i,
{
    if i < 0 || i >= rows.len() {
        Seq::empty()
    } else if row_matches(rows[i], repo, index, cid) {
        seq![row_to_extracted(rows[i])] + query_rows(rows, repo, index, cid, i + 1)
    } else {
        query_rows(rows, repo, index, cid, i + 1)
    }
}

/// The attribute index: the narrow CRUD store the extraction results land
/// in, with the upsert-by-id merge rule.
pub struct Repository {
    pub rows: Vec<AttributeRow>,
}

impl Repository {
    /// The stored rows as mathematical values.
    pub open spec fn rows_view(&self) -> Seq<AttributeRowV> {
        self.rows@.map_values(|r: AttributeRow| r@)
    }

    /// The index is well formed: row ids are pairwise distinct.
    pub open spec fn wf(&self) -> bool {
        wf_rows(self.rows_view())
    }

    /// An empty index.
    pub fn new() -> (r: Self)
        ensures
            r.rows_view() == Seq::<AttributeRowV>::empty(),
            r.wf(),
    {
        let r = Repository { rows: Vec::new() };
        proof {
            assert(r.rows_view() =~= Seq::<AttributeRowV>::empty());
        }
        r
    }

    /// Upsert one extraction result: a row with the same id is overwritten
    /// in place (data and creation stamp), a new id appends a row.
    #[verifier::loop_isolation(false)]
    pub fn add_attributes(
        &mut self,
        repository: &str,
        index_name: &str,
        extracted_attributes: ExtractedAttributes,
    )
        requires
            old(self).wf(),
        ensures
            final(self).wf(),
            final(self).rows_view() == upsert_rows(
                old(self).rows_view(),
                repository@,
                index_name@,
                extracted_attributes@,
            ),
    {
        let ghost rv = self.rows_view();
        let ghost ev = extracted_attributes@;
        let n = self.rows.len();
        let mut k: usize = 0;
        while k < n
            invariant
                0 <= k <= n,
                n == self.rows.len(),
                self.rows@ == old(self).rows@,
                rv == self.rows_view(),
                find_row(rv, ev.id, 0) == find_row(rv, ev.id, k as int),
            decreases n - k,
        {
            proof {
                assert(rv[k as int] == self.rows@[k as int]@);
            }
            if self.rows[k].id == extracted_attributes.id {
                let prev = self.rows.remove(k);
                let row = AttributeRow {
                    id: prev.id,
                    repository_id: prev.repository_id,
                    index_name: prev.index_name,
                    extractor_id: prev.extractor_id,
                    data: extracted_attributes.attributes,
                    content_id: prev.content_id,
                    created_at: 0,
                };
                self.rows.insert(k, row);
                proof {
                    assert(find_row(rv, ev.id, k as int) == k as int);
                    assert(self.rows_view() =~= rv.update(k as int, merged_row(rv[k as int], ev)));
                    assert forall|j1: int, j2: int|
                        0 <= j1 < j2 < self.rows_view().len() implies self.rows_view()[j1].id
                        != self.rows_view()[j2].id by {
                        assert(self.rows_view()[j1].id == rv[j1].id);
                        assert(self.rows_view()[j2].id == rv[j2].id);
                    }
                }
                return ;
            }
            k = k + 1;
        }
        proof {
            assert(find_row(rv, ev.id, n as int) == -1);
        }
        let row = AttributeRow {
            id: extracted_attributes.id,
            repository_id: repository.to_owned(),
            index_name: index_name.to_owned(),
            extractor_id: extracted_attributes.extractor_name,
            data: extracted_attributes.attributes,
            content_id: extracted_attributes.content_id,
            created_at: 0,
        };
        self.rows.push(row);
        proof {
            assert(self.rows_view() =~= rv.push(fresh_row(repository@, index_name@, ev)));
            lemma_find_row_props(rv, ev.id, 0);
            assert forall|j1: int, j2: int|
                0 <= j1 < j2 < self.rows_view().len() implies self.rows_view()[j1].id
                != self.rows_view()[j2].id by {
                if j2 < rv.len() {
                    assert(self.rows_view()[j1].id == rv[j1].id);
                    assert(self.rows_view()[j2].id == rv[j2].id);
                } else {
                    assert(self.rows_view()[j1].id == rv[j1].id);
                    assert(rv[j1].id != ev.id);
                }
            }
        }
    }

    /// All attributes stored for a repository and index, optionally narrowed
    /// to one content id, in storage order.
    #[verifier::loop_isolation(false)]
    pub fn get_extracted_attributes(
        &self,
        repository: &str,
        index: &str,
        content_id: Option<&String>,
    ) -> (r: Vec<ExtractedAttributes>)
        ensures
            r@.map_values(|e: ExtractedAttributes| e@) == query_rows(
                self.rows_view(),
                repository@,
                index@,
                (match content_id {
                    Some(c) => Some(c@),
                    None => None,
                }),
                0,
            ),
    {
        let ghost rv = self.rows_view();
        let ghost cidv: Option<Seq<char>> = match content_id {
            Some(c) => Some(c@),
            None => None,
        };
        let repo_owned = repository.to_owned();
        let index_owned = index.to_owned();
        let mut out: Vec<ExtractedAttributes> = Vec::new();
        let mut i: usize = 0;
        while i < self.rows.len()
            invariant
                0 <= i <= self.rows.len(),
                query_rows(rv, repository@, index@, cidv, 0) == out@.map_values(
                    |e: ExtractedAttributes| e@,
                ) + query_rows(rv, repository@, index@, cidv, i as int),
            decreases self.rows.len() - i,
        {
            proof {
                assert(rv[i as int] == self.rows@[i as int]@);
            }
            let row = &self.rows[i];
            let matches_row = row.repository_id == repo_owned && row.index_name == index_owned
                && (match content_id {
                Some(c) => row.content_id == *c,
                None => true,
            });
            if matches_row {
                let ghost prevm = out@.map_values(|e: ExtractedAttributes| e@);
                let item = ExtractedAttributes {
                    id: row.id.clone(),
                    content_id: row.content_id.clone(),
                    attributes: row.data.clone(),
                    extractor_name: row.extractor_id.clone(),
                };
                proof {
                    assert(item@ == row_to_extracted(rv[i as int]));
                }
                out.push(item);
                proof {
                    assert(out@.map_values(|e: ExtractedAttributes| e@) =~= prevm.push(
                        row_to_extracted(rv[i as int]),
                    ));
                    assert(prevm + (seq![row_to_extracted(rv[i as int])] + query_rows(
                        rv,
                        repository@,
                        index@,
                        cidv,
                        i + 1 as int,
                    )) =~= prevm.push(row_to_extracted(rv[i as int])) + query_rows(
                        rv,
                        repository@,
                        index@,
                        cidv,
                        i + 1 as int,
                    ));
                }
            }
            i = i + 1;
        }
        proof {
            assert(out@.map_values(|e: ExtractedAttributes| e@) + Seq::<
                ExtractedAttributesV,
            >::empty() =~= out@.map_values(|e: ExtractedAttributes| e@));
        }
        out
    }
}

/// What `find_row` finds: `-1` means no row has the id, otherwise the first
/// row with it.
pub proof fn lemma_find_row_props(rows: Seq<AttributeRowV>, id: Seq<char>, i: int)
    requires
        0 <= i <= rows.len(),
    ensures
        find_row(rows, id, i) == -1 ==> (forall|j: int|
            i <= j < rows.len() ==> rows[j].id != id),
        find_row(rows, id, i) != -1 ==> i <= find_row(rows, id, i) < rows.len() && rows[find_row(
            rows,
            id,
            i,
        )].id == id && (forall|j: int| i <= j < find_row(rows, id, i) ==> rows[j].id != id),
    decreases rows.len() - i,
{
    if i < rows.len() && rows[i].id != id {
        lemma_find_row_props(rows, id, i + 1);
    }
}

/// A witness pins `find_row` down: if `rows[k]` has the id and nothing
/// before it does, the find returns `k`.
pub proof fn lemma_find_row_at(rows: Seq<AttributeRowV>, id: Seq<char>, i: int, k: int)
    requires
        0 <= i <= k < rows.len(),
        rows[k].id == id,
        forall|j: int| i <= j < k ==> rows[j].id != id,
    ensures
        find_row(rows, id, i) == k,
    decreases k - i,
{
    if i < k {
        lemma_find_row_at(rows, id, i + 1, k);
    }
}

/// Upserting the same id twice leaves exactly one row with that id, and it
/// holds the latest attribute data.
pub proof fn lemma_upsert_twice_single_latest(
    rows: Seq<AttributeRowV>,
    repo1: Seq<char>,
    index1: Seq<char>,
    e1: ExtractedAttributesV,
    repo2: Seq<char>,
    index2: Seq<char>,
    e2: ExtractedAttributesV,
)
    requires
        wf_rows(rows),
        e1.id == e2.id,
    ensures
        ({
            let twice = upsert_rows(upsert_rows(rows, repo1, index1, e1), repo2, index2, e2);
            let k = find_row(twice, e2.id, 0);
            &&& 0 <= k < twice.len()
            &&& twice[k].id == e2.id
            &&& twice[k].data == e2.attributes
            &&& (forall|j: int| 0 <= j < twice.len() && j != k ==> twice[j].id != e2.id)
        }),
{
    let once = upsert_rows(rows, repo1, index1, e1);
    let twice = upsert_rows(once, repo2, index2, e2);
    lemma_find_row_props(rows, e1.id, 0);
    let k0 = find_row(rows, e1.id, 0);
    if k0 < 0 {
        // First upsert appends; both finds land on the appended row.
        assert(once == rows.push(fresh_row(repo1, index1, e1)));
        let n = rows.len() as int;
        assert(once[n].id == e2.id);
        assert forall|j: int| 0 <= j < n implies once[j].id != e2.id by {
            assert(once[j] == rows[j]);
        }
        lemma_find_row_at(once, e2.id, 0, n);
        assert(twice == once.update(n, merged_row(once[n], e2)));
        assert(twice[n].id == e2.id);
        assert(twice[n].data == e2.attributes);
        assert forall|j: int| 0 <= j < twice.len() && j != n implies twice[j].id != e2.id by {
            assert(twice[j] == once[j]);
        }
        lemma_find_row_at(twice, e2.id, 0, n);
    } else {
        // First upsert overwrote the existing row in place.
        assert(once == rows.update(k0, merged_row(rows[k0], e1)));
        assert(once[k0].id == e2.id);
        assert forall|j: int| 0 <= j < k0 implies once[j].id != e2.id by {
            assert(once[j] == rows[j]);
        }
        lemma_find_row_at(once, e2.id, 0, k0);
        assert(twice == once.update(k0, merged_row(once[k0], e2)));
        assert(twice[k0].id == e2.id);
        assert(twice[k0].data == e2.attributes);
        assert forall|j: int| 0 <= j < twice.len() && j != k0 implies twice[j].id != e2.id by {
            assert(twice[j] == once[j]);
            if j < k0 {
                assert(once[j] == rows[j]);
            } else {
                assert(once[j] == rows[j]);
                assert(rows[k0].id == e2.id);
            }
        }
        lemma_find_row_at(twice, e2.id, 0, k0);
    }
}

} // verus!
