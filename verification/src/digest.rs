//! HTTP Digest authentication (RFC 2617): reading a `WWW-Authenticate`
//! challenge and computing the `Authorization` header that answers it.
use vstd::prelude::*;
use vstd::utf8::encode_utf8;

use crate::clock::unix_nanos;
use crate::urls::{parse_url, parsed_url};
use crate::strmap::{insert_entry, lemma_lookup_insert, lookup, Entries, StrMap};
use crate::text::{
    chars_of, hex, hex_bytes, push_chars, push_hex, push_hex_bytes,
    push_str, split_char, split_chars, split_once, split_once_chars, string_of, strip_prefix,
    strip_prefix_chars, trim, trim_char, trim_chars, trim_matches_char, index_of, is_ws, trim_start,
    trim_start_char, trim_end_char,
};

verus! {

/// What `md5::compute` returns for the given bytes: the 16-byte MD5 digest.
pub uninterp spec fn md5_of(data: Seq<u8>) -> Seq<u8>;

/// `md5::compute`: the MD5 digest of `data`, named `md5_of`; its 16 bytes
/// are copied out of the `Digest` array. The MD5 algorithm is not restated.
#[verifier::external_body]
fn md5_digest(data: &[u8]) -> (r: Vec<u8>)
    ensures
        r@ == md5_of(data@),
        r@.len() == 16,
{
    md5::compute(data).0.to_vec()
}

/// The lowercase hex MD5 of the UTF-8 encoding of `s`.
pub open spec fn md5_hex_of(s: Seq<char>) -> Seq<char> {
    hex_bytes(md5_of(encode_utf8(s)))
}

/// The lowercase hexadecimal MD5 digest of `input` (32 characters).
pub fn md5_hex(input: &str) -> (r: String)
    ensures
        r@ == md5_hex_of(input@),
{
    let bytes = input.as_bytes();
    let digest = md5_digest(bytes);
    let mut out: Vec<char> = Vec::new();
    push_hex_bytes(&mut out, &digest);
    proof {
        assert(Seq::<char>::empty() + hex_bytes(digest@) =~= hex_bytes(digest@));
    }
    string_of(&out)
}

/// The name and value of one `key=value` part of a challenge: split at the
/// first `=`, both sides trimmed, surrounding `"` removed from the value.
pub open spec fn digest_param_of(part: Seq<char>) -> Option<(Seq<char>, Seq<char>)> {
    match split_once(trim(part), '=') {
        Some(p) => Some((trim(p.0), trim_char(trim(p.1), '"'))),
        None => None,
    }
}

/// The parameters after reading `parts` in order; a later value of a key
/// replaces an earlier one.
pub open spec fn fold_digest_params(parts: Seq<Seq<char>>) -> Entries
    decreases parts.len(),
{
    if parts.len() == 0 {
        Seq::empty()
    } else {
        let m = fold_digest_params(parts.drop_last());
        match digest_param_of(parts.last()) {
            Some(p) => insert_entry(m, p.0, p.1),
            None => m,
        }
    }
}

/// The parameters of a `WWW-Authenticate` challenge: the text after an
/// optional `Digest ` prefix, split at `,`, each part read by
/// `digest_param_of`.
pub open spec fn digest_params_of(header: Seq<char>) -> Entries {
    let h = match strip_prefix(header, "Digest "@) {
        Some(r) => r,
        None => header,
    };
    fold_digest_params(split_char(h, ','))
}

/// Reads the parameters of a `WWW-Authenticate: Digest ...` challenge.
pub fn parse_digest_params(header: &str) -> (r: StrMap)
    ensures
        r@ == digest_params_of(header@),
{
    let all = chars_of(header);
    let prefix = chars_of("Digest ");
    let h = match strip_prefix_chars(&all, &prefix) {
        Some(rest) => rest,
        None => all,
    };
    let parts = split_chars(&h, ',');
    let ghost sp = split_char(h@, ',');
    let mut params = StrMap::new();
    let mut i: usize = 0;
    proof {
        assert(sp.take(0) =~= Seq::<Seq<char>>::empty());
    }
    while i < parts.len()
        invariant
            i <= parts@.len(),
            parts@.len() == sp.len(),
            forall|k: int| 0 <= k < parts@.len() ==> #[trigger] parts@[k]@ == sp[k],
            params@ == fold_digest_params(sp.take(i as int)),
        decreases parts.len() - i,
    {
        proof {
            assert(sp.take(i as int + 1).drop_last() =~= sp.take(i as int));
            assert(sp.take(i as int + 1).last() == parts@[i as int]@);
        }
        let part = trim_chars(&parts[i]);
        if let Some((k, v)) = split_once_chars(&part, '=') {
            let key = trim_chars(&k);
            let value_trimmed = trim_chars(&v);
            let value = trim_matches_char(&value_trimmed, '"');
            params.insert(string_of(&key), string_of(&value));
        }
        i = i + 1;
    }
    proof {
        assert(sp.take(parts@.len() as int) =~= sp);
    }
    params
}

/// The Request-URI used in the digest (RFC 2617 `digest-uri`): the path of
/// the parsed URL followed by `?` and its query when it has one; a URL that
/// does not parse is used as given.
pub open spec fn digest_uri_of(url: Seq<char>) -> Seq<char> {
    match parsed_url(url) {
        Some(p) => p.2 + match p.3 {
            Some(q) => "?"@ + q,
            None => Seq::empty(),
        },
        None => url,
    }
}

/// The Request-URI of `url` (see `digest_uri_of`).
fn digest_uri(url: &str) -> (r: Vec<char>)
    ensures
        r@ == digest_uri_of(url@),
{
    match parse_url(url) {
        Some(p) => {
            let mut out = chars_of(p.path.as_str());
            if let Some(q) = &p.query {
                push_str(&mut out, "?");
                push_str(&mut out, q.as_str());
            }
            out
        },
        None => chars_of(url),
    }
}

/// The `Authorization` header answering a challenge with client nonce
/// `cnonce`: `None` when the challenge lacks `realm` or `nonce`. The quality
/// of protection defaults to `auth`; the nonce count is `00000001`.
pub open spec fn digest_header_of(
    www_authenticate: Seq<char>,
    username: Seq<char>,
    password: Seq<char>,
    method: Seq<char>,
    url: Seq<char>,
    cnonce: Seq<char>,
) -> Option<Seq<char>> {
    let m = digest_params_of(www_authenticate);
    let realm = lookup(m, "realm"@);
    let nonce = lookup(m, "nonce"@);
    let qop = match lookup(m, "qop"@) {
        Some(q) => q,
        None => "auth"@,
    };
    let uri = digest_uri_of(url);
    if realm is None || nonce is None {
        None
    } else {
        let realm = realm->0;
        let nonce = nonce->0;
        let ha1 = md5_hex_of(username + ":"@ + realm + ":"@ + password);
        let ha2 = md5_hex_of(method + ":"@ + uri);
        let response = md5_hex_of(
            ha1 + ":"@ + nonce + ":"@ + "00000001"@ + ":"@ + cnonce + ":"@ + qop + ":"@ + ha2,
        );
        let base = "Digest username=\""@ + username + "\", realm=\""@ + realm
            + "\", nonce=\""@ + nonce + "\", uri=\""@ + uri + "\", response=\""@ + response
            + "\", qop="@ + qop + ", nc=00000001, cnonce=\""@ + cnonce + "\""@;
        Some(
            match lookup(m, "opaque"@) {
                Some(o) => base + ", opaque=\""@ + o + "\""@,
                None => base,
            },
        )
    }
}

/// Computes the `Authorization` header answering the challenge
/// `www_authenticate` with the given client nonce (see `digest_header_of`).
pub fn digest_auth_with_cnonce(
    www_authenticate: &str,
    username: &str,
    password: &str,
    method: &str,
    url: &str,
    cnonce: &str,
) -> (r: Option<String>)
    ensures
        match r {
            Some(h) => digest_header_of(
                www_authenticate@,
                username@,
                password@,
                method@,
                url@,
                cnonce@,
            ) == Some(h@),
            None => digest_header_of(
                www_authenticate@,
                username@,
                password@,
                method@,
                url@,
                cnonce@,
            ) is None,
        },
{
    let params = parse_digest_params(www_authenticate);
    let realm = match params.get("realm") {
        Some(r) => r,
        None => return None,
    };
    let nonce = match params.get("nonce") {
        Some(n) => n,
        None => return None,
    };
    let qop: Vec<char> = match params.get("qop") {
        Some(q) => chars_of(q.as_str()),
        None => chars_of("auth"),
    };
    let uri_chars = digest_uri(url);
    let uri = &uri_chars;

    let mut a1: Vec<char> = Vec::new();
    push_str(&mut a1, username);
    push_str(&mut a1, ":");
    push_str(&mut a1, realm.as_str());
    push_str(&mut a1, ":");
    push_str(&mut a1, password);
    let ha1 = md5_hex(string_of(&a1).as_str());

    let mut a2: Vec<char> = Vec::new();
    push_str(&mut a2, method);
    push_str(&mut a2, ":");
    push_chars(&mut a2, uri);
    let ha2 = md5_hex(string_of(&a2).as_str());

    let mut a3: Vec<char> = Vec::new();
    push_str(&mut a3, ha1.as_str());
    push_str(&mut a3, ":");
    push_str(&mut a3, nonce.as_str());
    push_str(&mut a3, ":");
    push_str(&mut a3, "00000001");
    push_str(&mut a3, ":");
    push_str(&mut a3, cnonce);
    push_str(&mut a3, ":");
    push_chars(&mut a3, &qop);
    push_str(&mut a3, ":");
    push_str(&mut a3, ha2.as_str());
    let response = md5_hex(string_of(&a3).as_str());

    let mut out: Vec<char> = Vec::new();
    push_str(&mut out, "Digest username=\"");
    push_str(&mut out, username);
    push_str(&mut out, "\", realm=\"");
    push_str(&mut out, realm.as_str());
    push_str(&mut out, "\", nonce=\"");
    push_str(&mut out, nonce.as_str());
    push_str(&mut out, "\", uri=\"");
    push_chars(&mut out, uri);
    push_str(&mut out, "\", response=\"");
    push_str(&mut out, response.as_str());
    push_str(&mut out, "\", qop=");
    push_chars(&mut out, &qop);
    push_str(&mut out, ", nc=00000001, cnonce=\"");
    push_str(&mut out, cnonce);
    push_str(&mut out, "\"");
    let ghost base = out@;
    if let Some(opaque) = params.get("opaque") {
        push_str(&mut out, ", opaque=\"");
        push_str(&mut out, opaque.as_str());
        push_str(&mut out, "\"");
    }
    proof {
        assert(a1@ =~= username@ + ":"@ + realm@ + ":"@ + password@);
        assert(a2@ =~= method@ + ":"@ + digest_uri_of(url@));
        let ha1s = md5_hex_of(username@ + ":"@ + realm@ + ":"@ + password@);
        let ha2s = md5_hex_of(method@ + ":"@ + digest_uri_of(url@));
        assert(a3@ =~= ha1s + ":"@ + nonce@ + ":"@ + "00000001"@ + ":"@ + cnonce@ + ":"@ + qop@
            + ":"@ + ha2s);
        assert(base =~= "Digest username=\""@ + username@ + "\", realm=\""@ + realm@
            + "\", nonce=\""@ + nonce@ + "\", uri=\""@ + digest_uri_of(url@) + "\", response=\""@
            + response@ + "\", qop="@ + qop@ + ", nc=00000001, cnonce=\""@ + cnonce@ + "\""@);
    }
    Some(string_of(&out))
}

/// Computes the `Authorization` header answering a Digest challenge, with a
/// client nonce taken from the clock (nanoseconds since the Unix epoch in
/// lowercase hex). It is `None` exactly when the challenge lacks `realm` or
/// `nonce`; otherwise it is `digest_header_of` for some client nonce.
pub fn compute_digest_auth(
    www_authenticate: &str,
    username: &str,
    password: &str,
    method: &str,
    url: &str,
) -> (r: Option<String>)
    ensures
        r is None <==> (lookup(digest_params_of(www_authenticate@), "realm"@) is None || lookup(
            digest_params_of(www_authenticate@),
            "nonce"@,
        ) is None),
        match r {
            Some(h) => exists|n: nat|
                digest_header_of(
                    www_authenticate@,
                    username@,
                    password@,
                    method@,
                    url@,
                    #[trigger] hex(n),
                ) == Some(h@),
            None => true,
        },
{
    let nanos = unix_nanos();
    let mut c: Vec<char> = Vec::new();
    push_hex(&mut c, nanos);
    proof {
        assert(Seq::<char>::empty() + hex(nanos as nat) =~= hex(nanos as nat));
    }
    let cnonce = string_of(&c);
    digest_auth_with_cnonce(www_authenticate, username, password, method, url, cnonce.as_str())
}

proof fn lemma_split_without_sep(s: Seq<char>, c: char)
    requires
        forall|i: int| 0 <= i < s.len() ==> s[i] != c,
    ensures
        split_char(s, c) =~= seq![s],
    decreases s.len(),
{
    if s.len() > 0 {
        let d = s.drop_last();
        assert forall|i: int| 0 <= i < d.len() implies d[i] != c by {
            assert(d[i] == s[i]);
        }
        lemma_split_without_sep(d, c);
        assert(s.last() == s[s.len() - 1]);
        assert(d.push(s.last()) =~= s);
        let r = split_char(d, c);
        assert(r.last() == d);
        assert(split_char(s, c) == r.update(r.len() - 1, r.last().push(s.last())));
        assert(r.update(r.len() - 1, r.last().push(s.last())) =~= seq![s]);
    } else {
        assert(s =~= Seq::<char>::empty());
    }
}

proof fn lemma_index_of_first(s: Seq<char>, c: char, n: int)
    requires
        0 <= n < s.len(),
        s[n] == c,
        forall|i: int| 0 <= i < n ==> s[i] != c,
    ensures
        index_of(s, c) == n,
    decreases n,
{
    if n > 0 {
        lemma_index_of_first(s.drop_first(), c, n - 1);
    }
}

proof fn lemma_trim_unchanged(s: Seq<char>)
    requires
        s.len() > 0,
        !is_ws(s[0]),
        !is_ws(s.last()),
    ensures
        trim(s) == s,
{
    assert(trim_start(s) == s);
}

proof fn lemma_unquote(v: Seq<char>)
    requires
        forall|i: int| 0 <= i < v.len() ==> v[i] != '"',
    ensures
        trim_char(seq!['"'] + v + seq!['"'], '"') == v,
{
    let q = seq!['"'] + v + seq!['"'];
    assert(q.drop_first() =~= v + seq!['"']);
    let t = v + seq!['"'];
    if v.len() > 0 {
        assert(t[0] == v[0]);
        assert(trim_start_char(t, '"') == t);
    } else {
        assert(t =~= seq!['"']);
        assert(t.drop_first() =~= Seq::<char>::empty());
        assert(trim_start_char(t.drop_first(), '"') =~= Seq::<char>::empty());
        assert(trim_start_char(t, '"') =~= Seq::<char>::empty());
    }
    assert(trim_start_char(q, '"') == trim_start_char(t, '"'));
    if v.len() > 0 {
        assert(t.drop_last() =~= v);
        assert(trim_end_char(t, '"') == trim_end_char(v, '"'));
        assert(v.last() == v[v.len() - 1]);
    }
}

/// A challenge part `key="value"` gives exactly that value: quotes around
/// the value are removed and nothing else, so a value with any characters
/// but `"` and `,` (`=` padding included) is kept whole. The key must be a
/// plain name: not empty, without `=`, `,` or `"`, and not starting or
/// ending with whitespace.
pub proof fn lemma_quoted_param_read_whole(k: Seq<char>, v: Seq<char>)
    requires
        k.len() > 0,
        forall|i: int| 0 <= i < k.len() ==> k[i] != '=' && k[i] != ',' && k[i] != '"',
        !is_ws(k[0]),
        !is_ws(k.last()),
        forall|i: int| 0 <= i < v.len() ==> v[i] != '"' && v[i] != ',',
    ensures
        lookup(digest_params_of("Digest "@ + k + seq!['=', '"'] + v + seq!['"']), k) == Some(v),
{
    reveal_strlit("Digest ");
    let rest = k + seq!['=', '"'] + v + seq!['"'];
    let header = "Digest "@ + k + seq!['=', '"'] + v + seq!['"'];
    assert(header =~= "Digest "@ + rest);
    assert(header.subrange(0, 7) =~= "Digest "@);
    assert(header.skip(7) =~= rest);
    assert(strip_prefix(header, "Digest "@) == Some(rest));
    assert forall|i: int| 0 <= i < rest.len() implies rest[i] != ',' by {
        if i < k.len() {
            assert(rest[i] == k[i]);
        } else if i >= k.len() + 2 && i < k.len() + 2 + v.len() {
            assert(rest[i] == v[i - k.len() - 2]);
        }
    }
    lemma_split_without_sep(rest, ',');
    assert(rest[0] == k[0]);
    assert(rest.last() == '"');
    lemma_trim_unchanged(rest);
    assert forall|i: int| 0 <= i < k.len() implies rest[i] != '=' by {
        assert(rest[i] == k[i]);
    }
    lemma_index_of_first(rest, '=', k.len() as int);
    assert(rest.take(k.len() as int) =~= k);
    let q = seq!['"'] + v + seq!['"'];
    assert(rest.skip(k.len() as int + 1) =~= q);
    lemma_trim_unchanged(k);
    lemma_trim_unchanged(q);
    lemma_unquote(v);
    assert(digest_param_of(rest) == Some((k, v)));
    let parts = seq![rest];
    assert(parts.drop_last() =~= Seq::<Seq<char>>::empty());
    assert(parts.last() == rest);
    assert(fold_digest_params(Seq::<Seq<char>>::empty()) == Seq::<(Seq<char>, Seq<char>)>::empty());
    assert(fold_digest_params(parts) == insert_entry(Seq::empty(), k, v));
    lemma_lookup_insert(Seq::empty(), k, v, k);
}

} // verus!
