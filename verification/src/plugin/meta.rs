//! The metadata that a plugin gives about each of its elements, and the
//! cleaning of text before it crosses into C strings.

use vstd::prelude::*;

use crate::plugin::ElementKind;
use crate::text::{remove_char, without_char};

verus! {

/// What a plugin's author says about an element.
#[derive(Debug, Clone)]
pub struct ElementMeta {
    pub kind: ElementKind,
    pub name: String,
    pub plugin: String,
    pub version: String,
    pub license: String,
    pub author: String,
    pub blurb: String,
    pub repo: String,
}

impl ElementMeta {
    /// Metadata with the given kind and texts.
    pub fn new(
        kind: ElementKind,
        name: &str,
        plugin: &str,
        version: &str,
        license: &str,
        author: &str,
        blurb: &str,
        repo: &str,
    ) -> (r: Self)
        ensures
            r.kind == kind,
            r.name@ == name@,
            r.plugin@ == plugin@,
            r.version@ == version@,
            r.license@ == license@,
            r.author@ == author@,
            r.blurb@ == blurb@,
            r.repo@ == repo@,
    {
        ElementMeta {
            kind,
            name: name.to_owned(),
            plugin: plugin.to_owned(),
            version: version.to_owned(),
            license: license.to_owned(),
            author: author.to_owned(),
            blurb: blurb.to_owned(),
            repo: repo.to_owned(),
        }
    }

    /// A copy of this metadata with the same fields.
    pub fn duplicate(&self) -> (r: Self)
        ensures
            r == *self,
    {
        ElementMeta {
            kind: self.kind,
            name: self.name.clone(),
            plugin: self.plugin.clone(),
            version: self.version.clone(),
            license: self.license.clone(),
            author: self.author.clone(),
            blurb: self.blurb.clone(),
            repo: self.repo.clone(),
        }
    }
}

/// `t` without its NUL characters, so that it can become a C string.
pub fn escape_null(t: &str) -> (r: String)
    ensures
        r@ == without_char(t@, '\0'),
{
    remove_char(t, '\0')
}

/// The byte that stands in for a NUL byte in a copied C string.
pub open spec fn nul_free_byte(b: u8) -> u8 {
    if b == 0 {
        0xff
    } else {
        b
    }
}

/// Replaces every NUL byte of `bytes` with `0xFF`, so that the bytes can
/// become a C string.
pub fn replace_nul_bytes(bytes: &mut Vec<u8>)
    ensures
        final(bytes)@.len() == old(bytes)@.len(),
        forall|i: int| 0 <= i < old(bytes)@.len() ==> #[trigger] final(bytes)@[i] == nul_free_byte(old(bytes)@[i]),
{
    let n = bytes.len();
    let mut i: usize = 0;
    while i < n
        invariant
            i <= n == bytes@.len(),
            n == old(bytes)@.len(),
            forall|m: int| 0 <= m < i ==> #[trigger] bytes@[m] == nul_free_byte(old(bytes)@[m]),
            forall|m: int| i <= m < n ==> #[trigger] bytes@[m] == old(bytes)@[m],
        decreases n - i,
    {
        if bytes[i] == 0 {
            bytes.set(i, 0xff);
        }
        i = i + 1;
    }
}

} // verus!
