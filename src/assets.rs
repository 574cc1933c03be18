//! The asset manifest, content-hashed asset names, and the rewriting of
//! root-relative URLs in rendered pages.

use vstd::prelude::*;
use crate::site::str_equal;

verus! {

/// The mapping from an asset's name to its content-hashed name.
pub struct AssetManifest {
    entries: Vec<(String, String)>,
    map: Ghost<Map<Seq<char>, Seq<char>>>,
}

impl View for AssetManifest {
    type V = Map<Seq<char>, Seq<char>>;

    closed spec fn view(&self) -> Map<Seq<char>, Seq<char>> {
        self.map@
    }
}

impl AssetManifest {
    pub closed spec fn wf(&self) -> bool {
        let e = self.entries@;
        &&& forall|i: int, j: int| 0 <= i < j < e.len() ==> e[i].0@ != e[j].0@
        &&& forall|i: int|
            0 <= i < e.len() ==> self.map@.contains_key(#[trigger] e[i].0@) && self.map@[e[i].0@]
                == e[i].1@
        &&& forall|k: Seq<char>|
            #[trigger] self.map@.contains_key(k) ==> exists|i: int| 0 <= i < e.len() && e[i].0@ == k
    }

    pub fn new() -> (r: AssetManifest)
        ensures
            r.wf(),
            r@ == Map::<Seq<char>, Seq<char>>::empty(),
    {
        AssetManifest { entries: Vec::new(), map: Ghost(Map::empty()) }
    }

    fn find(&self, name: &str) -> (r: Option<usize>)
        requires
            self.wf(),
        ensures
            match r {
                Some(i) => i < self.entries@.len() && self.entries@[i as int].0@ == name@,
                None => !self@.contains_key(name@),
            },
    {
        let mut i: usize = 0;
        while i < self.entries.len()
            invariant
                i <= self.entries@.len(),
                forall|j: int| 0 <= j < i ==> self.entries@[j].0@ != name@,
            decreases self.entries.len() - i,
        {
            if str_equal(self.entries[i].0.as_str(), name) {
                return Some(i);
            }
            i = i + 1;
        }
        None
    }

    /// The hashed name of the asset `name`.
    pub fn get(&self, name: &str) -> (r: Option<&String>)
        requires
            self.wf(),
        ensures
            match r {
                Some(h) => self@.contains_key(name@) && self@[name@] == h@,
                None => !self@.contains_key(name@),
            },
    {
        match self.find(name) {
            Some(i) => Some(&self.entries[i].1),
            None => None,
        }
    }

    /// Maps `name` to `hashed`, replacing what `name` mapped to before.
    pub fn insert(&mut self, name: String, hashed: String)
        requires
            old(self).wf(),
        ensures
            final(self).wf(),
            final(self)@ == old(self)@.insert(name@, hashed@),
    {
        let ghost n = name@;
        let ghost h = hashed@;
        let found = self.find(name.as_str());
        let ghost e0 = self.entries@;
        match found {
            Some(i) => {
                self.entries.set(i, (name, hashed));
            },
            None => {
                self.entries.push((name, hashed));
            },
        }
        self.map = Ghost(self.map@.insert(n, h));
        proof {
            let e = self.entries@;
            assert forall|k: Seq<char>| #[trigger] self.map@.contains_key(k) implies exists|i: int|
                0 <= i < e.len() && e[i].0@ == k by {
                if k != n {
                    assert(old(self).map@.contains_key(k));
                    let i = choose|i: int| 0 <= i < e0.len() && e0[i].0@ == k;
                    assert(e[i] == e0[i]);
                } else {
                    match found {
                        Some(i) => assert(e[i as int].0@ == k),
                        None => assert(e[e.len() - 1].0@ == k),
                    }
                }
            }
            assert forall|i: int| 0 <= i < e.len() implies self.map@.contains_key(#[trigger] e[i].0@)
                && self.map@[e[i].0@] == e[i].1@ by {
                if i < e0.len() && e[i] == e0[i] {
                    if e0[i].0@ == n {
                        assert(found is Some);
                    }
                }
            }
        }
    }
}

/// Why a URL could not be rewritten.
pub enum RewriteError {
    /// A `/public/` reference names an asset that the manifest lacks.
    MissingAsset(String),
}

pub open spec fn public_prefix() -> Seq<char> {
    "/public/"@
}

/// The URL that a reference `url` becomes in a page served below `root`:
/// an asset is sent to its hashed name, another root-relative URL gets
/// `root` in front, and anything else stays. Nothing for an unknown asset.
pub open spec fn rewrite_of(
    root: Seq<char>,
    manifest: Map<Seq<char>, Seq<char>>,
    url: Seq<char>,
) -> Option<Seq<char>> {
    if url.len() >= 8 && url.subrange(0, 8) == public_prefix() {
        let item = url.subrange(8, url.len() as int);
        if manifest.contains_key(item) {
            Some(root + public_prefix() + manifest[item])
        } else {
            None
        }
    } else if url.len() > 0 && url[0] == '/' {
        Some(root + url)
    } else {
        Some(url)
    }
}

/// Rewrites one `href` or `src` value for a page served below `root`.
pub fn rewrite_url(root: &str, manifest: &AssetManifest, url: &str) -> (r: Result<
    String,
    RewriteError,
>)
    requires
        manifest.wf(),
    ensures
        match r {
            Ok(s) => rewrite_of(root@, manifest@, url@) == Some(s@),
            Err(RewriteError::MissingAsset(item)) => rewrite_of(root@, manifest@, url@) is None
                && item@ == url@.subrange(8, url@.len() as int),
        },
{
    proof {
        reveal_strlit("/public/");
        reveal_strlit("/");
    }
    let n = url.unicode_len();
    if n >= 8 && str_equal(url.substring_char(0, 8), "/public/") {
        let item = url.substring_char(8, n);
        match manifest.get(item) {
            Some(hashed) => {
                let mut s = String::from_str(root);
                s.append("/public/");
                s.append(hashed.as_str());
                Ok(s)
            },
            None => Err(RewriteError::MissingAsset(String::from_str(item))),
        }
    } else if n > 0 && url.get_char(0) == '/' {
        let mut s = String::from_str(root);
        s.append(url);
        Ok(s)
    } else {
        Ok(String::from_str(url))
    }
}

/// What SHA-1 gives for `data`.
pub uninterp spec fn sha1_of(data: Seq<u8>) -> Seq<u8>;

/// What URL-safe base64 without padding gives for `data`.
pub uninterp spec fn base64url_of(data: Seq<u8>) -> Seq<char>;

/// Relies on sha1's `Sha1::digest`: the SHA-1 digest of `data`, 20 bytes.
#[verifier::external_body]
fn sha1_digest(data: &Vec<u8>) -> (r: Vec<u8>)
    ensures
        r@ == sha1_of(data@),
        r@.len() == 20,
{
    <sha1::Sha1 as sha1::Digest>::digest(data.as_slice()).to_vec()
}

/// Relies on base64ct's `Base64UrlUnpadded::encode_string`: the unpadded
/// URL-safe base64 text of `data`, one character per six bits, rounded up.
#[verifier::external_body]
fn base64url_encode(data: &Vec<u8>) -> (r: String)
    requires
        data@.len() * 4 <= usize::MAX,
    ensures
        r@ == base64url_of(data@),
        r@.len() == (4 * data@.len() + 2) / 3,
{
    <base64ct::Base64UrlUnpadded as base64ct::Encoding>::encode_string(data.as_slice())
}

/// At most the first `n` characters of `s`.
pub open spec fn take(s: Seq<char>, n: int) -> Seq<char> {
    if s.len() <= n {
        s
    } else {
        s.subrange(0, n)
    }
}

/// The hashed name of an asset: seven characters of the encoded digest of
/// its content, `_`, and its name.
pub open spec fn hashed_name_of(encoded_digest: Seq<char>, name: Seq<char>) -> Seq<char> {
    take(encoded_digest, 7) + "_"@ + name
}

/// Builds the hashed name of asset `name` from the encoded digest of its
/// content.
pub fn hashed_name_from_digest(encoded_digest: &str, name: &str) -> (r: String)
    ensures
        r@ == hashed_name_of(encoded_digest@, name@),
{
    let n = encoded_digest.unicode_len();
    let k: usize = if n < 7 { n } else { 7 };
    let mut s = String::from_str(encoded_digest.substring_char(0, k));
    s.append("_");
    s.append(name);
    proof {
        reveal_strlit("_");
        assert(encoded_digest@.subrange(0, n as int) =~= encoded_digest@);
    }
    s
}

/// The content-hashed name under which the asset `name`, holding `content`,
/// is published.
pub fn hashed_asset_name(content: &Vec<u8>, name: &str) -> (r: String)
    ensures
        r@ == hashed_name_of(base64url_of(sha1_of(content@)), name@),
{
    let digest = sha1_digest(content);
    let encoded = base64url_encode(&digest);
    hashed_name_from_digest(encoded.as_str(), name)
}

} // verus!
