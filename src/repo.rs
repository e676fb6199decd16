use vstd::prelude::*;

use crate::selection::chars_of;
use crate::text::{push_char, push_text};

verus! {

pub open spec fn scheme() -> Seq<char> {
    seq!['h', 't', 't', 'p', 's', ':', '/', '/']
}

pub open spec fn starts_with_scheme(s: Seq<char>) -> bool {
    s.len() >= 8 && s.take(8) == scheme()
}

/// The address to clone: `url` itself where it starts with `https://`, else `url` behind
/// that prefix.
pub open spec fn clone_address(url: Seq<char>) -> Seq<char> {
    if starts_with_scheme(url) {
        url
    } else {
        scheme() + url
    }
}

/// `s` with every `https://` left out, read from the left.
pub open spec fn without_scheme(s: Seq<char>) -> Seq<char>
    decreases s.len(),
{
    if s.len() == 0 {
        s
    } else if starts_with_scheme(s) {
        without_scheme(s.skip(8))
    } else {
        seq![s[0]] + without_scheme(s.skip(1))
    }
}

/// `s` with every `/` written as `__`.
pub open spec fn flattened(s: Seq<char>) -> Seq<char>
    decreases s.len(),
{
    if s.len() == 0 {
        s
    } else if s.last() == '/' {
        flattened(s.drop_last()) + seq!['_', '_']
    } else {
        flattened(s.drop_last()).push(s.last())
    }
}

/// The name of the directory that caches the clone of `address`.
pub open spec fn cache_name(address: Seq<char>) -> Seq<char> {
    flattened(without_scheme(address))
}

/// Whether `chars[i..]` starts with `https://`.
fn scheme_at(chars: &Vec<char>, i: usize) -> (r: bool)
    requires
        i <= chars@.len(),
    ensures
        r == starts_with_scheme(chars@.skip(i as int)),
{
    if chars.len() - i < 8 {
        return false;
    }
    let r = chars[i] == 'h' && chars[i + 1] == 't' && chars[i + 2] == 't' && chars[i + 3] == 'p'
        && chars[i + 4] == 's' && chars[i + 5] == ':' && chars[i + 6] == '/' && chars[i + 7] == '/';
    assert(r == (chars@.skip(i as int).take(8) =~= scheme()));
    r
}

/// The address to clone a repository from: `url` as it is where it starts with `https://`,
/// else `url` behind `https://`.
pub fn repo_address(url: &str) -> (r: String)
    ensures
        r@ == clone_address(url@),
{
    let chars = chars_of(url);
    assert(chars@.skip(0) =~= chars@);
    let mut r = String::new();
    if !scheme_at(&chars, 0) {
        push_text(&mut r, "https://");
        proof {
            reveal_strlit("https://");
        }
        assert(r@ =~= scheme());
    }
    push_text(&mut r, url);
    r
}

/// The directory name under which the clone of `address` is cached: the address without
/// `https://`, with each `/` written as `__`.
pub fn cache_dir_name(address: &str) -> (r: String)
    ensures
        r@ == cache_name(address@),
{
    let chars = chars_of(address);
    let n = chars.len();
    let mut bare: Vec<char> = Vec::new();
    let mut i: usize = 0;
    assert(chars@.skip(0) =~= chars@);
    assert(bare@ + without_scheme(chars@) =~= without_scheme(chars@));
    while i < n
        invariant
            n == chars@.len(),
            i <= n,
            bare@ + without_scheme(chars@.skip(i as int)) == without_scheme(chars@),
        decreases n - i,
    {
        let ghost rest = chars@.skip(i as int);
        if scheme_at(&chars, i) {
            assert(rest.skip(8) =~= chars@.skip(i + 8));
            i = i + 8;
        } else {
            assert(rest.skip(1) =~= chars@.skip(i + 1));
            assert(rest[0] == chars@[i as int]);
            bare.push(chars[i]);
            assert(bare@ + without_scheme(chars@.skip(i + 1)) =~= bare@.drop_last() + (seq![
                rest[0],
            ] + without_scheme(rest.skip(1))));
            i = i + 1;
        }
    }
    assert(chars@.skip(n as int) =~= Seq::<char>::empty());
    assert(bare@ =~= bare@ + without_scheme(Seq::<char>::empty()));
    let mut r = String::new();
    let mut k: usize = 0;
    while k < bare.len()
        invariant
            k <= bare@.len(),
            bare@ == without_scheme(chars@),
            chars@ == address@,
            r@ == flattened(bare@.take(k as int)),
        decreases bare@.len() - k,
    {
        assert(bare@.take(k + 1).drop_last() =~= bare@.take(k as int));
        if bare[k] == '/' {
            push_char(&mut r, '_');
            push_char(&mut r, '_');
            assert(r@ =~= flattened(bare@.take(k as int)) + seq!['_', '_']);
        } else {
            push_char(&mut r, bare[k]);
        }
        k = k + 1;
    }
    assert(bare@.take(k as int) =~= bare@);
    r
}

} // verus!
