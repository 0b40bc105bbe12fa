//! The texts that are hashed, and their hashes.
use crate::review::{LineKey, LineSide};
use crate::text;
use vstd::prelude::*;
use vstd::string::*;
use vstd::utf8;

verus! {

/// The SHA-1 hash of `bytes` in hexadecimal, where it could be computed.
pub uninterp spec fn sha1_hex_of(bytes: Seq<u8>) -> Option<Seq<char>>;

/// `gix_hash::Hasher::try_finalize`, on a SHA-1 hasher of `gix_hash::hasher`
/// that was updated with `bytes` alone: the digest, which `ObjectId` displays
/// in hexadecimal, or an error where a collision attack is detected. Both are
/// functions of the bytes; nothing more is said of them.
#[verifier::external_body]
fn sha1_hex(bytes: &[u8]) -> (r: Option<String>)
    ensures
        text::opt_view(r) == sha1_hex_of(bytes@),
{
    let mut h = gix_hash::hasher(gix_hash::Kind::Sha1);
    h.update(bytes);
    match h.try_finalize() {
        Ok(oid) => Some(oid.to_string()),
        Err(_) => None,
    }
}

/// The id that git gives to a blob of the content `bytes`, in hexadecimal,
/// where it could be computed.
pub uninterp spec fn blob_id_of(bytes: Seq<u8>) -> Option<Seq<char>>;

/// `gix_object::compute_hash` of a blob with SHA-1: the object id, which
/// `ObjectId` displays in hexadecimal, or an error where a collision attack is
/// detected. Both are functions of the content; nothing more is said of them.
#[verifier::external_body]
fn blob_id(bytes: &[u8]) -> (r: Option<String>)
    ensures
        text::opt_view(r) == blob_id_of(bytes@),
{
    match gix_object::compute_hash(gix_hash::Kind::Sha1, gix_object::Kind::Blob, bytes) {
        Ok(oid) => Some(oid.to_string()),
        Err(_) => None,
    }
}

/// The hash of a text, by its UTF-8 bytes.
pub open spec fn text_hash(s: Seq<char>) -> Option<Seq<char>> {
    sha1_hex_of(utf8::encode_utf8(s))
}

/// The hash of a text, by its UTF-8 bytes.
pub fn hash_text(s: &str) -> (r: Option<String>)
    ensures
        text::opt_view(r) == text_hash(s@),
{
    sha1_hex(s.as_bytes())
}

/// The id that git gives to a blob that holds a text.
pub fn blob_id_of_text(s: &str) -> (r: Option<String>)
    ensures
        text::opt_view(r) == blob_id_of(utf8::encode_utf8(s@)),
{
    blob_id(s.as_bytes())
}

/// The name of a side in keys and labels.
pub open spec fn side_name(side: LineSide) -> Seq<char> {
    match side {
        LineSide::Old => "old"@,
        LineSide::New => "new"@,
    }
}

/// The name of a side in keys and labels.
pub fn side_label(side: LineSide) -> (r: &'static str)
    ensures
        r@ == side_name(side),
{
    match side {
        LineSide::Old => "old",
        LineSide::New => "new",
    }
}

/// The key under which the hash of a line is kept.
pub open spec fn meta_key_text(file: Seq<char>, side: Seq<char>, line: nat) -> Seq<char> {
    file + seq!['\0'] + side + seq!['\0'] + text::decimal(line)
}

/// The key under which the hash of a line is kept.
pub fn meta_key(file: &str, side: &str, line: u32) -> (out: String)
    ensures
        out@ == meta_key_text(file@, side@, line as nat),
{
    let mut out = String::new();
    out.append(file);
    out.push('\0');
    out.append(side);
    out.push('\0');
    text::push_decimal(&mut out, line as u64);
    assert(out@ =~= meta_key_text(file@, side@, line as nat));
    out
}

/// The text whose hash stands for a draft.
pub open spec fn draft_preimage(content: Seq<char>) -> Seq<char> {
    "remark-draft-content-v1\0"@ + content
}

/// The hash of a draft.
pub fn draft_content_hash(content: &str) -> (r: Option<String>)
    ensures
        text::opt_view(r) == text_hash(draft_preimage(content@)),
{
    let mut s = String::new();
    s.append("remark-draft-content-v1\0");
    s.append(content);
    assert(s@ =~= draft_preimage(content@));
    hash_text(s.as_str())
}

/// The text whose hash stands for the code on a line.
pub open spec fn snippet_preimage(path: Seq<char>, key: LineKey, snippet: Seq<char>) -> Seq<char> {
    "remark-draft-snippet-v1\0"@ + meta_key_text(path, side_name(key.side), key.line as nat) + seq![
        '\0',
    ] + snippet
}

/// The hash of the code on a line.
pub fn snippet_hash(path: &str, key: LineKey, snippet: &str) -> (r: Option<String>)
    ensures
        text::opt_view(r) == text_hash(snippet_preimage(path@, key, snippet@)),
{
    let mut s = String::new();
    s.append("remark-draft-snippet-v1\0");
    let k = meta_key(path, side_label(key.side), key.line);
    s.append(k.as_str());
    s.push('\0');
    s.append(snippet);
    assert(s@ =~= snippet_preimage(path@, key, snippet@));
    hash_text(s.as_str())
}

/// One of the two versions in the text that stands for a change: whether it
/// exists, its length in bytes, and its content.
pub open spec fn version_part(label: Seq<char>, value: Option<Seq<char>>) -> Seq<char> {
    label + seq!['\0'] + (match value {
        Some(v) => seq!['1', '\0'] + text::decimal(utf8::encode_utf8(v).len()) + seq!['\0'] + v,
        None => seq!['0', '\0'],
    })
}

/// The text whose hash stands for a change of a file.
pub open spec fn review_preimage(before: Option<Seq<char>>, after: Option<Seq<char>>) -> Seq<char> {
    "remark-review-v1\0"@ + version_part("before"@, before) + version_part("after"@, after)
}

/// What an optional text holds.
pub open spec fn opt_str(o: Option<&str>) -> Option<Seq<char>> {
    match o {
        Some(s) => Some(s@),
        None => None,
    }
}

fn hash_part(out: &mut String, label: &str, value: Option<&str>)
    ensures
        final(out)@ == old(out)@ + version_part(label@, opt_str(value)),
{
    out.append(label);
    out.push('\0');
    match value {
        Some(v) => {
            out.push('1');
            out.push('\0');
            text::push_decimal(out, v.as_bytes().len() as u64);
            out.push('\0');
            out.append(v);
        },
        None => {
            out.push('0');
            out.push('\0');
        },
    }
    assert(out@ =~= old(out)@ + version_part(label@, opt_str(value)));
}

/// The hash of a change of a file, by which it is known again.
pub fn review_fingerprint(before: Option<&str>, after: Option<&str>) -> (r: Option<String>)
    ensures
        text::opt_view(r) == text_hash(review_preimage(opt_str(before), opt_str(after))),
{
    let mut s = String::new();
    s.append("remark-review-v1\0");
    hash_part(&mut s, "before", before);
    hash_part(&mut s, "after", after);
    assert(s@ =~= review_preimage(opt_str(before), opt_str(after)));
    hash_text(s.as_str())
}

/// Whether `c` does not occur in `s`.
pub open spec fn is_free_of(s: Seq<char>, c: char) -> bool {
    forall|i: int| 0 <= i < s.len() ==> s[i] != c
}

/// Decimals are free of separators.
proof fn lemma_decimal_free(n: nat)
    ensures
        is_free_of(text::decimal(n), '\0'),
{
    text::lemma_decimal_parses(n);
    let d = text::decimal(n);
    assert forall|i: int| 0 <= i < d.len() implies d[i] != '\0' by {
        assert(text::is_digit(d[i]));
    }
}

/// Where the last separator of a text stands, its two sides are known.
proof fn lemma_last_separator(a: Seq<char>, b: Seq<char>, x: Seq<char>, y: Seq<char>, c: char)
    requires
        a + seq![c] + b == x + seq![c] + y,
        is_free_of(b, c),
        is_free_of(y, c),
    ensures
        a == x,
        b == y,
{
    let s = a + seq![c] + b;
    let t = x + seq![c] + y;
    assert(s.len() == a.len() + 1 + b.len());
    assert(t.len() == x.len() + 1 + y.len());
    assert(s[a.len() as int] == c);
    assert(t[x.len() as int] == c);
    if a.len() < x.len() {
        assert(s[x.len() as int] == b[x.len() - a.len() - 1]);
    }
    if x.len() < a.len() {
        assert(t[a.len() as int] == y[a.len() - x.len() - 1]);
    }
    assert(a =~= s.take(a.len() as int));
    assert(x =~= s.take(a.len() as int));
    assert(b =~= s.skip(a.len() as int + 1));
    assert(y =~= s.skip(a.len() as int + 1));
}

/// Two lines have the same key only where they are the same line of the same
/// side of the same file.
pub proof fn law_meta_key_tells_lines_apart(
    file: Seq<char>,
    key: LineKey,
    other_file: Seq<char>,
    other: LineKey,
)
    requires
        meta_key_text(file, side_name(key.side), key.line as nat) == meta_key_text(
            other_file,
            side_name(other.side),
            other.line as nat,
        ),
    ensures
        file == other_file,
        key == other,
{
    reveal_strlit("old");
    reveal_strlit("new");
    lemma_decimal_free(key.line as nat);
    lemma_decimal_free(other.line as nat);
    lemma_last_separator(
        file + seq!['\0'] + side_name(key.side),
        text::decimal(key.line as nat),
        other_file + seq!['\0'] + side_name(other.side),
        text::decimal(other.line as nat),
        '\0',
    );
    lemma_last_separator(file, side_name(key.side), other_file, side_name(other.side), '\0');
    text::lemma_decimal_parses(key.line as nat);
    text::lemma_decimal_parses(other.line as nat);
    assert("old"@[0] == 'o');
    assert("new"@[0] == 'n');
}

proof fn lemma_utf8_concat(a: Seq<char>, b: Seq<char>)
    ensures
        utf8::encode_utf8(a + b).len() == utf8::encode_utf8(a).len() + utf8::encode_utf8(b).len(),
        utf8::encode_utf8(b).len() >= b.len(),
    decreases a.len(), b.len(),
{
    if a.len() == 0 {
        assert(a + b =~= b);
        if b.len() > 0 {
            lemma_utf8_concat(a, b.drop_first());
        }
    } else {
        assert((a + b).drop_first() =~= a.drop_first() + b);
        lemma_utf8_concat(a.drop_first(), b);
    }
}

/// Two texts that start the same text and have as many bytes are the same.
proof fn lemma_same_bytes_same_text(a: Seq<char>, b: Seq<char>, x: Seq<char>, y: Seq<char>)
    requires
        a + x == b + y,
        utf8::encode_utf8(a).len() == utf8::encode_utf8(b).len(),
    ensures
        a == b,
        x == y,
{
    let s = a + x;
    if a.len() < b.len() {
        let d = b.skip(a.len() as int);
        assert(b =~= a + d) by {
            assert forall|i: int| 0 <= i < b.len() implies b[i] == (a + d)[i] by {
                assert(s[i] == (b + y)[i]);
            }
        }
        lemma_utf8_concat(a, d);
    }
    if b.len() < a.len() {
        let d = a.skip(b.len() as int);
        assert(a =~= b + d) by {
            assert forall|i: int| 0 <= i < a.len() implies a[i] == (b + d)[i] by {
                assert((b + y)[i] == s[i]);
            }
        }
        lemma_utf8_concat(b, d);
    }
    assert(a =~= s.take(a.len() as int));
    assert(b =~= s.take(a.len() as int));
    assert(x =~= s.skip(a.len() as int));
    assert(y =~= s.skip(a.len() as int));
}

/// Where the first separator of a text stands, its two sides are known.
proof fn lemma_first_separator(a: Seq<char>, b: Seq<char>, x: Seq<char>, y: Seq<char>, c: char)
    requires
        a + seq![c] + b == x + seq![c] + y,
        is_free_of(a, c),
        is_free_of(x, c),
    ensures
        a == x,
        b == y,
{
    let s = a + seq![c] + b;
    assert(s[a.len() as int] == c);
    assert(s[x.len() as int] == c);
    if a.len() < x.len() {
        assert((x + seq![c] + y)[a.len() as int] == x[a.len() as int]);
    }
    if x.len() < a.len() {
        assert(s[x.len() as int] == a[x.len() as int]);
    }
    assert(a =~= s.take(a.len() as int));
    assert(x =~= s.take(a.len() as int));
    assert(b =~= s.skip(a.len() as int + 1));
    assert(y =~= s.skip(a.len() as int + 1));
}

/// A version and what follows it are read back from their text.
proof fn lemma_version_part(
    label: Seq<char>,
    a: Option<Seq<char>>,
    x: Seq<char>,
    b: Option<Seq<char>>,
    y: Seq<char>,
)
    requires
        version_part(label, a) + x == version_part(label, b) + y,
    ensures
        a == b,
        x == y,
{
    let n = label.len() as int + 1;
    let s = version_part(label, a) + x;
    assert(s[n] == (if a is Some { '1' } else { '0' }));
    assert((version_part(label, b) + y)[n] == (if b is Some { '1' } else { '0' }));
    match (a, b) {
        (Some(v), Some(w)) => {
            let dv = text::decimal(utf8::encode_utf8(v).len());
            let dw = text::decimal(utf8::encode_utf8(w).len());
            assert(s.skip(n + 2) =~= dv + seq!['\0'] + (v + x));
            assert((version_part(label, b) + y).skip(n + 2) =~= dw + seq!['\0'] + (w + y));
            lemma_decimal_free(utf8::encode_utf8(v).len());
            lemma_decimal_free(utf8::encode_utf8(w).len());
            lemma_first_separator(dv, v + x, dw, w + y, '\0');
            text::lemma_decimal_parses(utf8::encode_utf8(v).len());
            text::lemma_decimal_parses(utf8::encode_utf8(w).len());
            lemma_same_bytes_same_text(v, w, x, y);
        },
        _ => {
            assert(s.skip(n + 2) =~= x);
            assert((version_part(label, b) + y).skip(n + 2) =~= y);
        },
    }
}

/// Two changes are hashed by the same text only where they are the same: no
/// version runs into the other.
pub proof fn law_fingerprint_tells_changes_apart(
    before: Option<Seq<char>>,
    after: Option<Seq<char>>,
    other_before: Option<Seq<char>>,
    other_after: Option<Seq<char>>,
)
    requires
        review_preimage(before, after) == review_preimage(other_before, other_after),
    ensures
        before == other_before,
        after == other_after,
{
    let h = "remark-review-v1\0"@;
    let s = review_preimage(before, after);
    let a = version_part("before"@, before) + version_part("after"@, after);
    let b = version_part("before"@, other_before) + version_part("after"@, other_after);
    assert(s.skip(h.len() as int) =~= a);
    assert(review_preimage(other_before, other_after).skip(h.len() as int) =~= b);
    lemma_version_part(
        "before"@,
        before,
        version_part("after"@, after),
        other_before,
        version_part("after"@, other_after),
    );
    let none = Seq::<char>::empty();
    assert(version_part("after"@, after) + none =~= version_part("after"@, other_after) + none);
    lemma_version_part("after"@, after, none, other_after, none);
}

/// What is hashed for a comment on a line tells its file, its line and its code apart, as
/// long as no path holds a zero character.
pub proof fn law_hashed_code_is_told_apart(
    path: Seq<char>,
    key: LineKey,
    code: Seq<char>,
    other_path: Seq<char>,
    other: LineKey,
    other_code: Seq<char>,
)
    requires
        is_free_of(path, '\0'),
        is_free_of(other_path, '\0'),
        snippet_preimage(path, key, code) == snippet_preimage(other_path, other, other_code),
    ensures
        path == other_path,
        key == other,
        code == other_code,
{
    let tag = "remark-draft-snippet-v1\0"@;
    let zero = seq!['\0'];
    let (s, t) = (side_name(key.side), side_name(other.side));
    let (m, n) = (text::decimal(key.line as nat), text::decimal(other.line as nat));
    let a = snippet_preimage(path, key, code);
    let b = snippet_preimage(other_path, other, other_code);
    lemma_decimal_free(key.line as nat);
    lemma_decimal_free(other.line as nat);
    reveal_strlit("old");
    reveal_strlit("new");
    assert(a.skip(tag.len() as int) =~= path + zero + (s + zero + m + zero + code));
    assert(b.skip(tag.len() as int) =~= other_path + zero + (t + zero + n + zero + other_code));
    lemma_first_separator(
        path,
        s + zero + m + zero + code,
        other_path,
        t + zero + n + zero + other_code,
        '\0',
    );
    assert(s + zero + m + zero + code =~= s + zero + (m + zero + code));
    assert(t + zero + n + zero + other_code =~= t + zero + (n + zero + other_code));
    lemma_first_separator(s, m + zero + code, t, n + zero + other_code, '\0');
    lemma_first_separator(m, code, n, other_code, '\0');
    text::lemma_decimal_parses(key.line as nat);
    text::lemma_decimal_parses(other.line as nat);
    assert("old"@[0] != "new"@[0]);
}

} // verus!
