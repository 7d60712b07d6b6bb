//! The canonical JSON form of directories and snapshots, and the
//! fingerprints derived from it.
//!
//! The form is fixed down to the byte: fields in a fixed order, no white
//! space, fingerprints as 64 lowercase hexadecimal digits, the date as a
//! decimal integer. An object's own fingerprint is the digest of its form
//! with the `hash` field set to all zeros.

use vstd::prelude::*;
use vstd::string::StringSliceAdditionalSpecFns;
use vstd::utf8::encode_utf8;
use crate::bytes::append_bytes;
use crate::digest::{blake3_digest, fingerprint};
use crate::hex::hex_string;
use crate::model::{
    zero_fingerprint, Blob, BlobView, ObjectId, Record, RecordView, Tree, TreeView,
};

verus! {

/// How one byte of a string appears between the quotes: the quote and the
/// backslash behind a backslash, the control characters as their short or
/// `\u00XX` escapes, every other byte as it is.
pub open spec fn escape_byte(b: u8) -> Seq<u8> {
    if b == 0x22 {
        seq![0x5cu8, 0x22u8]
    } else if b == 0x5c {
        seq![0x5cu8, 0x5cu8]
    } else if b == 0x08 {
        seq![0x5cu8, 0x62u8]
    } else if b == 0x0c {
        seq![0x5cu8, 0x66u8]
    } else if b == 0x0a {
        seq![0x5cu8, 0x6eu8]
    } else if b == 0x0d {
        seq![0x5cu8, 0x72u8]
    } else if b == 0x09 {
        seq![0x5cu8, 0x74u8]
    } else if b < 0x20 {
        seq![0x5cu8, 0x75u8, 0x30u8, 0x30u8, low_hex(b as int / 16), low_hex(b as int % 16)]
    } else {
        seq![b]
    }
}

/// The ASCII code of the lowercase hexadecimal digit for a value below 16.
pub open spec fn low_hex(n: int) -> u8 {
    if n < 10 {
        (48 + n) as u8
    } else {
        (87 + n) as u8
    }
}

/// The bytes of a string with every byte escaped.
pub open spec fn escaped(bytes: Seq<u8>) -> Seq<u8>
    decreases bytes.len(),
{
    if bytes.len() == 0 {
        Seq::empty()
    } else {
        escaped(bytes.drop_last()) + escape_byte(bytes.last())
    }
}

/// A string as JSON: its UTF-8 bytes, escaped, between double quotes.
pub open spec fn json_string(text: Seq<char>) -> Seq<u8> {
    seq![0x22u8] + escaped(encode_utf8(text)) + seq![0x22u8]
}

/// A fingerprint as JSON: the string of its hexadecimal form.
pub open spec fn json_hash(id: Seq<u8>) -> Seq<u8> {
    json_string(hex_string(id))
}

/// The decimal digits of a natural number, without leading zeros.
pub open spec fn decimal_digits(n: nat) -> Seq<u8>
    decreases n,
{
    if n < 10 {
        seq![(48 + n) as u8]
    } else {
        decimal_digits(n / 10).push((48 + n % 10) as u8)
    }
}

/// An integer as JSON: a minus sign where it is negative, then its digits.
pub open spec fn json_int(n: int) -> Seq<u8> {
    if n < 0 {
        seq![0x2du8] + decimal_digits((-n) as nat)
    } else {
        decimal_digits(n as nat)
    }
}

/// The items separated by commas.
pub open spec fn comma_joined(items: Seq<Seq<u8>>) -> Seq<u8>
    decreases items.len(),
{
    if items.len() == 0 {
        Seq::empty()
    } else if items.len() == 1 {
        items[0]
    } else {
        comma_joined(items.drop_last()) + seq![0x2cu8] + items.last()
    }
}

/// A JSON array of the given items.
pub open spec fn json_array(items: Seq<Seq<u8>>) -> Seq<u8> {
    seq![0x5bu8] + comma_joined(items) + seq![0x5du8]
}

/// A file entry as JSON: `{"name":..,"hash":..}`.
pub open spec fn blob_json(blob: BlobView) -> Seq<u8> {
    encode_utf8("{\"name\":"@) + json_string(blob.name) + encode_utf8(",\"hash\":"@) + json_hash(
        blob.hash,
    ) + encode_utf8("}"@)
}

/// The JSON forms of a list of fingerprints.
pub open spec fn hash_items(ids: Seq<Seq<u8>>) -> Seq<Seq<u8>> {
    Seq::new(ids.len(), |i: int| json_hash(ids[i]))
}

/// The JSON forms of a list of file entries.
pub open spec fn blob_items(blobs: Seq<BlobView>) -> Seq<Seq<u8>> {
    Seq::new(blobs.len(), |i: int| blob_json(blobs[i]))
}

/// A directory as JSON: `{"name":..,"hash":..,"trees":[..],"blobs":[..]}`.
pub open spec fn tree_json(tree: TreeView) -> Seq<u8> {
    encode_utf8("{\"name\":"@) + json_string(tree.name) + encode_utf8(",\"hash\":"@) + json_hash(
        tree.hash,
    ) + encode_utf8(",\"trees\":"@) + json_array(hash_items(tree.trees)) + encode_utf8(
        ",\"blobs\":"@,
    ) + json_array(blob_items(tree.blobs)) + encode_utf8("}"@)
}

/// A snapshot as JSON:
/// `{"hash":..,"message":..,"author":..,"date":..,"root":..}`.
pub open spec fn record_json(record: RecordView) -> Seq<u8> {
    encode_utf8("{\"hash\":"@) + json_hash(record.hash) + encode_utf8(",\"message\":"@)
        + json_string(record.message) + encode_utf8(",\"author\":"@) + json_string(record.author)
        + encode_utf8(",\"date\":"@) + json_int(record.date) + encode_utf8(",\"root\":"@)
        + json_hash(record.root) + encode_utf8("}"@)
}

/// The fingerprint of a directory: the digest of its JSON form with the
/// `hash` field zeroed. It depends on the name and on the two ordered lists
/// of children, and on nothing else.
pub open spec fn tree_fingerprint(tree: TreeView) -> Seq<u8> {
    blake3_digest(tree_json(TreeView { hash: zero_fingerprint(), ..tree }))
}

/// The fingerprint of a snapshot: the digest of its JSON form with the
/// `hash` field zeroed.
pub open spec fn record_fingerprint(record: RecordView) -> Seq<u8> {
    blake3_digest(record_json(RecordView { hash: zero_fingerprint(), ..record }))
}

fn put(out: &mut Vec<u8>, literal: &str)
    ensures
        final(out)@ == old(out)@ + encode_utf8(literal@),
{
    append_bytes(out, literal.as_bytes());
}

fn low_hex_digit(n: u8) -> (d: u8)
    requires
        n < 16,
    ensures
        d == low_hex(n as int),
{
    if n < 10 {
        48 + n
    } else {
        87 + n
    }
}

fn put_escaped_byte(out: &mut Vec<u8>, b: u8)
    ensures
        final(out)@ == old(out)@ + escape_byte(b),
{
    if b == 0x22 {
        out.push(0x5c);
        out.push(0x22);
    } else if b == 0x5c {
        out.push(0x5c);
        out.push(0x5c);
    } else if b == 0x08 {
        out.push(0x5c);
        out.push(0x62);
    } else if b == 0x0c {
        out.push(0x5c);
        out.push(0x66);
    } else if b == 0x0a {
        out.push(0x5c);
        out.push(0x6e);
    } else if b == 0x0d {
        out.push(0x5c);
        out.push(0x72);
    } else if b == 0x09 {
        out.push(0x5c);
        out.push(0x74);
    } else if b < 0x20 {
        out.push(0x5c);
        out.push(0x75);
        out.push(0x30);
        out.push(0x30);
        out.push(low_hex_digit(b / 16));
        out.push(low_hex_digit(b % 16));
    } else {
        out.push(b);
    }
    assert(out@ =~= old(out)@ + escape_byte(b));
}

/// Appends a string as JSON.
pub fn put_string(out: &mut Vec<u8>, text: &str)
    ensures
        final(out)@ == old(out)@ + json_string(text@),
{
    let bytes = text.as_bytes();
    out.push(0x22);
    let ghost start = out@;
    let mut i: usize = 0;
    assert(bytes@.take(0) =~= Seq::<u8>::empty());
    assert(start + escaped(bytes@.take(0)) =~= start);
    while i < bytes.len()
        invariant
            i <= bytes@.len(),
            out@ == start + escaped(bytes@.take(i as int)),
        decreases bytes@.len() - i,
    {
        put_escaped_byte(out, bytes[i]);
        assert(bytes@.take(i + 1).drop_last() =~= bytes@.take(i as int));
        assert(out@ =~= start + escaped(bytes@.take(i + 1)));
        i += 1;
    }
    assert(bytes@.take(i as int) =~= bytes@);
    out.push(0x22);
    assert(out@ =~= old(out)@ + json_string(text@));
}

/// Appends a fingerprint as JSON.
pub fn put_hash(out: &mut Vec<u8>, id: &ObjectId)
    ensures
        final(out)@ == old(out)@ + json_hash(id@),
{
    let text = id.to_hex();
    put_string(out, text.as_str());
}

fn put_digits(out: &mut Vec<u8>, n: u64)
    ensures
        final(out)@ == old(out)@ + decimal_digits(n as nat),
    decreases n,
{
    if n >= 10 {
        put_digits(out, n / 10);
    }
    out.push(48 + (n % 10) as u8);
    assert(out@ =~= old(out)@ + decimal_digits(n as nat));
}

/// Appends an integer as JSON.
pub fn put_int(out: &mut Vec<u8>, n: i64)
    ensures
        final(out)@ == old(out)@ + json_int(n as int),
{
    if n < 0 {
        out.push(0x2d);
        let magnitude: u64 = (-(n + 1)) as u64 + 1;
        put_digits(out, magnitude);
        assert(out@ =~= old(out)@ + json_int(n as int));
    } else {
        put_digits(out, n as u64);
    }
}

fn put_blob(out: &mut Vec<u8>, blob: &Blob)
    ensures
        final(out)@ == old(out)@ + blob_json(blob@),
{
    put(out, "{\"name\":");
    put_string(out, blob.name.as_str());
    put(out, ",\"hash\":");
    put_hash(out, &blob.hash);
    put(out, "}");
    assert(out@ =~= old(out)@ + blob_json(blob@));
}

fn put_hash_array(out: &mut Vec<u8>, ids: &Vec<ObjectId>)
    ensures
        final(out)@ == old(out)@ + json_array(hash_items(ids.deep_view())),
{
    let ghost items = hash_items(ids.deep_view());
    out.push(0x5b);
    let ghost start = out@;
    let mut i: usize = 0;
    assert(items.take(0) =~= Seq::<Seq<u8>>::empty());
    assert(start + comma_joined(items.take(0)) =~= start);
    while i < ids.len()
        invariant
            i <= ids@.len(),
            items == hash_items(ids.deep_view()),
            items.len() == ids@.len(),
            out@ == start + comma_joined(items.take(i as int)),
        decreases ids@.len() - i,
    {
        if i > 0 {
            out.push(0x2c);
        }
        put_hash(out, &ids[i]);
        assert(items.take(i + 1).drop_last() =~= items.take(i as int));
        assert(items.take(i + 1).last() == json_hash(ids@[i as int]@));
        assert(out@ =~= start + comma_joined(items.take(i + 1)));
        i += 1;
    }
    assert(items.take(i as int) =~= items);
    out.push(0x5d);
    assert(out@ =~= old(out)@ + json_array(items));
}

fn put_blob_array(out: &mut Vec<u8>, blobs: &Vec<Blob>)
    ensures
        final(out)@ == old(out)@ + json_array(blob_items(blobs.deep_view())),
{
    let ghost items = blob_items(blobs.deep_view());
    out.push(0x5b);
    let ghost start = out@;
    let mut i: usize = 0;
    assert(items.take(0) =~= Seq::<Seq<u8>>::empty());
    assert(start + comma_joined(items.take(0)) =~= start);
    while i < blobs.len()
        invariant
            i <= blobs@.len(),
            items == blob_items(blobs.deep_view()),
            items.len() == blobs@.len(),
            out@ == start + comma_joined(items.take(i as int)),
        decreases blobs@.len() - i,
    {
        if i > 0 {
            out.push(0x2c);
        }
        put_blob(out, &blobs[i]);
        assert(items.take(i + 1).drop_last() =~= items.take(i as int));
        assert(items.take(i + 1).last() == blob_json(blobs@[i as int]@));
        assert(out@ =~= start + comma_joined(items.take(i + 1)));
        i += 1;
    }
    assert(items.take(i as int) =~= items);
    out.push(0x5d);
    assert(out@ =~= old(out)@ + json_array(items));
}

fn tree_bytes(name: &str, hash: &ObjectId, trees: &Vec<ObjectId>, blobs: &Vec<Blob>) -> (out: Vec<
    u8,
>)
    ensures
        out@ == tree_json(
            TreeView {
                name: name@,
                hash: hash@,
                trees: trees.deep_view(),
                blobs: blobs.deep_view(),
            },
        ),
{
    let mut out: Vec<u8> = Vec::new();
    put(&mut out, "{\"name\":");
    put_string(&mut out, name);
    put(&mut out, ",\"hash\":");
    put_hash(&mut out, hash);
    put(&mut out, ",\"trees\":");
    put_hash_array(&mut out, trees);
    put(&mut out, ",\"blobs\":");
    put_blob_array(&mut out, blobs);
    put(&mut out, "}");
    assert(out@ =~= tree_json(
        TreeView { name: name@, hash: hash@, trees: trees.deep_view(), blobs: blobs.deep_view() },
    ));
    out
}

fn record_bytes(hash: &ObjectId, message: &str, author: &str, date: i64, root: &ObjectId) -> (out:
    Vec<u8>)
    ensures
        out@ == record_json(
            RecordView {
                hash: hash@,
                message: message@,
                author: author@,
                date: date as int,
                root: root@,
            },
        ),
{
    let mut out: Vec<u8> = Vec::new();
    put(&mut out, "{\"hash\":");
    put_hash(&mut out, hash);
    put(&mut out, ",\"message\":");
    put_string(&mut out, message);
    put(&mut out, ",\"author\":");
    put_string(&mut out, author);
    put(&mut out, ",\"date\":");
    put_int(&mut out, date);
    put(&mut out, ",\"root\":");
    put_hash(&mut out, root);
    put(&mut out, "}");
    assert(out@ =~= record_json(
        RecordView {
            hash: hash@,
            message: message@,
            author: author@,
            date: date as int,
            root: root@,
        },
    ));
    out
}

impl Blob {
    /// The entry in its canonical JSON form.
    pub fn to_json(&self) -> (out: Vec<u8>)
        ensures
            out@ == blob_json(self@),
    {
        let mut out: Vec<u8> = Vec::new();
        put_blob(&mut out, self);
        assert(out@ =~= blob_json(self@));
        out
    }
}

impl Tree {
    /// The directory in its canonical JSON form.
    pub fn to_json(&self) -> (out: Vec<u8>)
        ensures
            out@ == tree_json(self@),
    {
        tree_bytes(self.name.as_str(), &self.hash, &self.trees, &self.blobs)
    }

    /// The fingerprint that the directory has by its name and children,
    /// whatever its `hash` field holds.
    pub fn fingerprint(&self) -> (id: ObjectId)
        ensures
            id@ == tree_fingerprint(self@),
    {
        let zero = ObjectId::default();
        let bytes = tree_bytes(self.name.as_str(), &zero, &self.trees, &self.blobs);
        fingerprint(bytes.as_slice())
    }

    /// Whether the `hash` field holds the directory's fingerprint.
    pub fn is_sealed(&self) -> (sealed: bool)
        ensures
            sealed == (self@.hash == tree_fingerprint(self@)),
    {
        let id = self.fingerprint();
        id == self.hash
    }
}

impl Record {
    /// The snapshot in its canonical JSON form.
    pub fn to_json(&self) -> (out: Vec<u8>)
        ensures
            out@ == record_json(self@),
    {
        record_bytes(
            &self.hash,
            self.message.as_str(),
            self.author.as_str(),
            self.date,
            &self.root,
        )
    }

    /// The fingerprint that the snapshot has by its other fields, whatever
    /// its `hash` field holds.
    pub fn fingerprint(&self) -> (id: ObjectId)
        ensures
            id@ == record_fingerprint(self@),
    {
        let zero = ObjectId::default();
        let bytes = record_bytes(
            &zero,
            self.message.as_str(),
            self.author.as_str(),
            self.date,
            &self.root,
        );
        fingerprint(bytes.as_slice())
    }

    /// Whether the `hash` field holds the snapshot's fingerprint.
    pub fn is_sealed(&self) -> (sealed: bool)
        ensures
            sealed == (self@.hash == record_fingerprint(self@)),
    {
        let id = self.fingerprint();
        id == self.hash
    }
}

/// Two directories with the same name and the same ordered children have the
/// same fingerprint, whatever their `hash` fields hold.
pub proof fn lemma_tree_fingerprint_by_content(a: TreeView, b: TreeView)
    requires
        a.name == b.name,
        a.trees == b.trees,
        a.blobs == b.blobs,
    ensures
        tree_fingerprint(a) == tree_fingerprint(b),
{
}

} // verus!
