//! The text embedded for each kind of entity, and the hash that tells
//! whether an entity's text changed since it was last embedded.
use sha2::Digest;
use vstd::prelude::*;
use vstd::string::{StringExecFns, StringSliceAdditionalSpecFns};
use vstd::utf8::*;

use crate::error::AppError;
use crate::models::{HttpContract, ProtoContract, QueueContract, QueueField, Service, Table};

verus! {

broadcast use vstd::utf8::encode_utf8_decode_utf8;

/// The items of `items` separated by `sep`.
pub open spec fn join(items: Seq<Seq<char>>, sep: Seq<char>) -> Seq<char>
    decreases items.len(),
{
    if items.len() == 0 {
        Seq::empty()
    } else if items.len() == 1 {
        items[0]
    } else {
        join(items.drop_last(), sep) + sep + items.last()
    }
}

/// The names of the fields of a queue schema, in order.
pub open spec fn field_names(fields: Seq<QueueField>) -> Seq<Seq<char>> {
    fields.map_values(|f: QueueField| f.name@)
}

/// The byte length above which an HTTP specification is cut.
pub const HTTP_SPEC_LIMIT: usize = 4000;

/// The part of an HTTP specification that is embedded: its first
/// `HTTP_SPEC_LIMIT` bytes when it is longer, else all of it.
pub open spec fn embedded_spec(spec: Seq<char>) -> Seq<char> {
    if encode_utf8(spec).len() > HTTP_SPEC_LIMIT {
        decode_utf8(encode_utf8(spec).take(HTTP_SPEC_LIMIT as int))
    } else {
        spec
    }
}

/// Whether cutting `spec` at `HTTP_SPEC_LIMIT` bytes falls between two
/// characters (always so when it is not longer than that); its byte length
/// fits in memory.
pub open spec fn http_spec_cuttable(spec: Seq<char>) -> bool {
    &&& encode_utf8(spec).len() <= usize::MAX
    &&& encode_utf8(spec).len() > HTTP_SPEC_LIMIT ==> is_char_boundary(
        encode_utf8(spec),
        HTTP_SPEC_LIMIT as int,
    )
}

/// `name: description`.
pub fn embed_text_for_service(s: &Service) -> (res: String)
    ensures
        res@ == s.name@ + ": "@ + s.description@,
{
    let mut r = s.name.clone();
    r.append(": ");
    r.append(s.description.as_str());
    r
}

/// `name (database): description`, a line break, then the DDL.
pub fn embed_text_for_table(t: &Table) -> (res: String)
    ensures
        res@ == t.name@ + " ("@ + t.database@ + "): "@ + t.description@ + "\n"@ + t.ddl@,
{
    let mut r = t.name.clone();
    r.append(" (");
    r.append(t.database.as_str());
    r.append("): ");
    r.append(t.description.as_str());
    r.append("\n");
    r.append(t.ddl.as_str());
    r
}

/// The names of `fields` separated by `, `.
fn join_field_names(fields: &Vec<QueueField>) -> (res: String)
    ensures
        res@ == join(field_names(fields@), ", "@),
{
    let ghost names = field_names(fields@);
    let mut r = String::new();
    let mut i: usize = 0;
    while i < fields.len()
        invariant
            i <= fields.len(),
            names == field_names(fields@),
            r@ == join(names.take(i as int), ", "@),
        decreases fields.len() - i,
    {
        assert(names.take(i + 1).drop_last() =~= names.take(i as int));
        if i > 0 {
            r.append(", ");
        } else {
            assert(names.take(i as int) =~= Seq::<Seq<char>>::empty());
        }
        r.append(fields[i].name.as_str());
        i += 1;
    }
    assert(names.take(fields.len() as int) =~= names);
    r
}

/// `name: description. Fields: ` followed by the schema's field names
/// separated by `, `.
pub fn embed_text_for_queue(q: &QueueContract) -> (res: String)
    ensures
        res@ == q.name@ + ": "@ + q.description@ + ". Fields: "@ + join(
            field_names(q.schema.fields@),
            ", "@,
        ),
{
    let fields = join_field_names(&q.schema.fields);
    let mut r = q.name.clone();
    r.append(": ");
    r.append(q.description.as_str());
    r.append(". Fields: ");
    r.append(fields.as_str());
    r
}

/// `server: description`, a line break, then the raw proto.
pub fn embed_text_for_proto(p: &ProtoContract) -> (res: String)
    ensures
        res@ == p.server@ + ": "@ + p.description@ + "\n"@ + p.proto_raw@,
{
    let mut r = p.server.clone();
    r.append(": ");
    r.append(p.description.as_str());
    r.append("\n");
    r.append(p.proto_raw.as_str());
    r
}

/// `service: description`, a line break, then the specification cut to its
/// first 4000 bytes. The cut must fall between two characters.
pub fn embed_text_for_http(h: &HttpContract) -> (res: String)
    requires
        http_spec_cuttable(h.spec_raw@),
    ensures
        res@ == h.service@ + ": "@ + h.description@ + "\n"@ + embedded_spec(h.spec_raw@),
{
    let raw = h.spec_raw.as_str();
    let mut r = h.service.clone();
    r.append(": ");
    r.append(h.description.as_str());
    r.append("\n");
    if raw.len() > HTTP_SPEC_LIMIT {
        let (head, _tail) = raw.split_at(HTTP_SPEC_LIMIT);
        proof {
            assert(raw.spec_bytes() == encode_utf8(h.spec_raw@));
            assert(head.spec_bytes() =~= encode_utf8(h.spec_raw@).take(HTTP_SPEC_LIMIT as int));
            assert(decode_utf8(encode_utf8(head@)) == head@);
            assert(head@ == embedded_spec(h.spec_raw@));
        }
        r.append(head);
    } else {
        r.append(raw);
    }
    r
}

/// The SHA-256 digest of `data`.
pub uninterp spec fn sha256(data: Seq<u8>) -> Seq<u8>;

/// Calls `Sha256::digest` of the sha2 crate. Claimed: the result is the
/// SHA-256 digest of the bytes, a function of them alone, and it is 32 bytes
/// long (the output size of `Sha256`).
#[verifier::external_body]
fn sha256_digest(data: &[u8]) -> (res: Vec<u8>)
    ensures
        res@ == sha256(data@),
        res@.len() == 32,
{
    sha2::Sha256::digest(data).to_vec()
}

/// The lowercase hexadecimal digits.
pub open spec fn hex_digits() -> Seq<char> {
    seq!['0', '1', '2', '3', '4', '5', '6', '7', '8', '9', 'a', 'b', 'c', 'd', 'e', 'f']
}

/// Each byte as two lowercase hexadecimal digits, high nibble first.
pub open spec fn hex_lower(bytes: Seq<u8>) -> Seq<char>
    decreases bytes.len(),
{
    if bytes.len() == 0 {
        Seq::empty()
    } else {
        hex_lower(bytes.drop_last()) + seq![
            hex_digits()[(bytes.last() / 16) as int],
            hex_digits()[(bytes.last() % 16) as int],
        ]
    }
}

/// The one-character string of the hexadecimal digit `n`.
fn hex_digit(n: u8) -> (s: &'static str)
    requires
        n < 16,
    ensures
        s@ == seq![hex_digits()[n as int]],
{
    if n == 0 {
        proof { reveal_strlit("0"); }
        "0"
    } else if n == 1 {
        proof { reveal_strlit("1"); }
        "1"
    } else if n == 2 {
        proof { reveal_strlit("2"); }
        "2"
    } else if n == 3 {
        proof { reveal_strlit("3"); }
        "3"
    } else if n == 4 {
        proof { reveal_strlit("4"); }
        "4"
    } else if n == 5 {
        proof { reveal_strlit("5"); }
        "5"
    } else if n == 6 {
        proof { reveal_strlit("6"); }
        "6"
    } else if n == 7 {
        proof { reveal_strlit("7"); }
        "7"
    } else if n == 8 {
        proof { reveal_strlit("8"); }
        "8"
    } else if n == 9 {
        proof { reveal_strlit("9"); }
        "9"
    } else if n == 10 {
        proof { reveal_strlit("a"); }
        "a"
    } else if n == 11 {
        proof { reveal_strlit("b"); }
        "b"
    } else if n == 12 {
        proof { reveal_strlit("c"); }
        "c"
    } else if n == 13 {
        proof { reveal_strlit("d"); }
        "d"
    } else if n == 14 {
        proof { reveal_strlit("e"); }
        "e"
    } else {
        proof { reveal_strlit("f"); }
        "f"
    }
}

/// Each byte of `data` as two lowercase hexadecimal digits.
pub fn to_hex_lower(data: &[u8]) -> (res: String)
    ensures
        res@ == hex_lower(data@),
{
    let mut r = String::new();
    let mut i: usize = 0;
    while i < data.len()
        invariant
            i <= data.len(),
            r@ == hex_lower(data@.take(i as int)),
        decreases data.len() - i,
    {
        assert(data@.take(i + 1).drop_last() =~= data@.take(i as int));
        let b = data[i];
        r.append(hex_digit(b / 16));
        r.append(hex_digit(b % 16));
        i += 1;
    }
    assert(data@.take(data.len() as int) =~= data@);
    r
}

/// The SHA-256 digest of the UTF-8 bytes of `text`, in lowercase
/// hexadecimal: 64 characters.
pub fn text_hash(text: &str) -> (res: String)
    ensures
        res@ == hex_lower(sha256(encode_utf8(text@))),
        res@ == text_hash_of(text@),
        res@.len() == 64,
{
    let digest = sha256_digest(text.as_bytes());
    let r = to_hex_lower(digest.as_slice());
    proof {
        lemma_hex_lower_len(digest@);
    }
    r
}

/// Two hexadecimal digits per byte.
pub proof fn lemma_hex_lower_len(bytes: Seq<u8>)
    ensures
        hex_lower(bytes).len() == 2 * bytes.len(),
    decreases bytes.len(),
{
    if bytes.len() > 0 {
        lemma_hex_lower_len(bytes.drop_last());
    }
}

} // verus!

verus! {

/// Whether the stored text hash, as read, shows that the entity's
/// embedding is current: only a hash that was read and equals `hash` does.
pub open spec fn is_current(stored: Result<Option<String>, AppError>, hash: Seq<char>) -> bool {
    match stored {
        Ok(Some(h)) => h@ == hash,
        _ => false,
    }
}

/// Whether the stored text hash shows that the entity's embedding is
/// current, so that embedding its text again can be skipped.
pub fn hash_is_current(stored: &Result<Option<String>, AppError>, hash: &String) -> (res: bool)
    ensures
        res == is_current(*stored, hash@),
{
    match stored {
        Ok(Some(h)) => *h == *hash,
        _ => false,
    }
}

/// The text hash of `text`: the lowercase hexadecimal SHA-256 digest of its
/// UTF-8 bytes (what `text_hash` gives).
pub open spec fn text_hash_of(text: Seq<char>) -> Seq<char> {
    hex_lower(sha256(encode_utf8(text)))
}

/// Once the hash of a text is stored with an entity's embedding and read
/// back, the embedding counts as current for that same text, so it is not
/// embedded again; for a text with another hash it is embedded again.
pub proof fn law_unchanged_text_is_not_reembedded(text: Seq<char>, stored: String, other: Seq<char>)
    requires
        stored@ == text_hash_of(text),
    ensures
        is_current(Ok::<Option<String>, AppError>(Some(stored)), text_hash_of(text)),
        text_hash_of(other) != text_hash_of(text) ==> !is_current(
            Ok::<Option<String>, AppError>(Some(stored)),
            text_hash_of(other),
        ),
{
}

/// What keeping an entity's embedding up to date stores, given the
/// embedding service's answer: its vector, or nothing at all when the
/// service failed (the stored embedding and the index are left as they
/// were).
pub fn vector_to_store<V>(answer: Result<V, String>) -> (res: Option<V>)
    ensures
        match answer {
            Ok(v) => res == Some(v),
            Err(_) => res is None,
        },
{
    match answer {
        Ok(v) => Some(v),
        Err(_) => None,
    }
}

} // verus!

verus! {

/// The embedded part of an HTTP specification is at most 4000 bytes long,
/// and its bytes begin the specification's bytes.
pub proof fn law_embedded_spec_is_bounded_prefix(spec: Seq<char>)
    requires
        http_spec_cuttable(spec),
    ensures
        encode_utf8(embedded_spec(spec)).len() <= HTTP_SPEC_LIMIT,
        encode_utf8(embedded_spec(spec)) == encode_utf8(spec).take(
            encode_utf8(embedded_spec(spec)).len() as int,
        ),
{
    let bytes = encode_utf8(spec);
    if bytes.len() > HTTP_SPEC_LIMIT {
        encode_utf8_valid_utf8(spec);
        valid_utf8_split(bytes, HTTP_SPEC_LIMIT as int);
        assert(bytes.take(HTTP_SPEC_LIMIT as int) == bytes.subrange(0, HTTP_SPEC_LIMIT as int));
        decode_utf8_encode_utf8(bytes.take(HTTP_SPEC_LIMIT as int));
    } else {
        assert(bytes.take(bytes.len() as int) =~= bytes);
    }
}

} // verus!
