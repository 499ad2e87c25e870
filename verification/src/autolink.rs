//! Recognition of bare URLs, `www.` hosts and email addresses in running text.
//!
//! Each scanner looks at the bytes of `data` from `pos` up to `end`, and may
//! look back over at most `max_rewind` bytes before `pos`.

use vstd::prelude::*;
use vstd::string::StringSliceAdditionalSpecFns;
use crate::chars::{
    alnum, alpha, is_alnum, is_alpha, is_punct, is_white, lemma_skipped_back, lower, skip,
    skip_back, skipped, skipped_back, starts_with_at, to_lower, Class,
};

verus! {

/// What a scanner found: the number of bytes from `pos` on that belong to
/// the link (zero when there is none), and the number of bytes before `pos`
/// that belong to it too.
#[derive(Clone, Copy, Debug, PartialEq, Eq, Structural)]
pub struct Found {
    pub len: usize,
    pub rewind: usize,
}

/// Whether the bytes from `from` up to `end` match `word` without regard to case.
pub open spec fn matches_nocase(data: Seq<u8>, from: int, end: int, word: Seq<u8>) -> bool {
    &&& from + word.len() <= end
    &&& forall|k: int| 0 <= k < word.len() ==> lower(#[trigger] data[from + k]) == lower(word[k])
}

fn has_prefix_nocase(data: &[u8], from: usize, end: usize, word: &[u8]) -> (r: bool)
    requires
        from <= end <= data.len(),
    ensures
        r == matches_nocase(data@, from as int, end as int, word@),
{
    if word.len() > end - from {
        return false;
    }
    let mut i: usize = 0;
    while i < word.len()
        invariant
            i <= word.len(),
            from + word.len() <= end <= data.len(),
            forall|k: int| 0 <= k < i ==> lower(#[trigger] data@[from + k]) == lower(word@[k]),
        decreases word.len() - i,
    {
        if to_lower(data[from + i]) != to_lower(word[i]) {
            return false;
        }
        i += 1;
    }
    true
}

/// Whether the bytes from `from` up to `end` start with `scheme` and go on
/// with a letter or digit.
pub open spec fn scheme_at(data: Seq<u8>, from: int, end: int, scheme: Seq<u8>) -> bool {
    &&& end - from > scheme.len()
    &&& matches_nocase(data, from, end, scheme)
    &&& is_alnum(data[from + scheme.len()])
}

/// Whether the bytes from `from` up to `end` start like a link that is safe
/// to follow: a relative path, a fragment, or one of the schemes `http`,
/// `https`, `ftp` and `mailto`.
pub open spec fn spec_is_safe(data: Seq<u8>, from: int, end: int) -> bool {
    ||| scheme_at(data, from, end, seq![0x68u8, 0x74, 0x74, 0x70, 0x3a, 0x2f, 0x2f])
    ||| scheme_at(data, from, end, seq![0x68u8, 0x74, 0x74, 0x70, 0x73, 0x3a, 0x2f, 0x2f])
    ||| scheme_at(data, from, end, seq![0x2fu8])
    ||| scheme_at(data, from, end, seq![0x23u8])
    ||| scheme_at(data, from, end, seq![0x66u8, 0x74, 0x70, 0x3a, 0x2f, 0x2f])
    ||| scheme_at(data, from, end, seq![0x6du8, 0x61, 0x69, 0x6c, 0x74, 0x6f, 0x3a])
}

fn has_scheme(data: &[u8], from: usize, end: usize, scheme: &[u8]) -> (r: bool)
    requires
        from <= end <= data.len(),
    ensures
        r == scheme_at(data@, from as int, end as int, scheme@),
{
    if end - from <= scheme.len() {
        return false;
    }
    has_prefix_nocase(data, from, end, scheme) && alnum(data[from + scheme.len()])
}

/// Whether the bytes from `from` up to `end` start like a link that is safe
/// to follow.
pub fn is_safe(data: &[u8], from: usize, end: usize) -> (r: bool)
    requires
        from <= end <= data.len(),
    ensures
        r == spec_is_safe(data@, from as int, end as int),
{
    let http: [u8; 7] = [0x68, 0x74, 0x74, 0x70, 0x3a, 0x2f, 0x2f];
    let https: [u8; 8] = [0x68, 0x74, 0x74, 0x70, 0x73, 0x3a, 0x2f, 0x2f];
    let slash: [u8; 1] = [0x2f];
    let hash: [u8; 1] = [0x23];
    let ftp: [u8; 6] = [0x66, 0x74, 0x70, 0x3a, 0x2f, 0x2f];
    let mailto: [u8; 7] = [0x6d, 0x61, 0x69, 0x6c, 0x74, 0x6f, 0x3a];
    assert(http@ =~= seq![0x68u8, 0x74, 0x74, 0x70, 0x3a, 0x2f, 0x2f]);
    assert(https@ =~= seq![0x68u8, 0x74, 0x74, 0x70, 0x73, 0x3a, 0x2f, 0x2f]);
    assert(slash@ =~= seq![0x2fu8]);
    assert(hash@ =~= seq![0x23u8]);
    assert(ftp@ =~= seq![0x66u8, 0x74, 0x70, 0x3a, 0x2f, 0x2f]);
    assert(mailto@ =~= seq![0x6du8, 0x61, 0x69, 0x6c, 0x74, 0x6f, 0x3a]);
    has_scheme(data, from, end, http.as_slice()) || has_scheme(data, from, end, https.as_slice())
        || has_scheme(data, from, end, slash.as_slice()) || has_scheme(
        data,
        from,
        end,
        hash.as_slice(),
    ) || has_scheme(data, from, end, ftp.as_slice()) || has_scheme(
        data,
        from,
        end,
        mailto.as_slice(),
    )
}


/// The bracket or quote that `close` closes, or zero where it closes none.
pub open spec fn opener_of(close: u8) -> u8 {
    if close == 0x22 {
        0x22
    } else if close == 0x27 {
        0x27
    } else if close == 0x29 {
        0x28
    } else if close == 0x5d {
        0x5b
    } else if close == 0x7d {
        0x7b
    } else {
        0
    }
}

fn opener(close: u8) -> (r: u8)
    ensures
        r == opener_of(close),
{
    if close == 0x22 {
        0x22
    } else if close == 0x27 {
        0x27
    } else if close == 0x29 {
        0x28
    } else if close == 0x5d {
        0x5b
    } else if close == 0x7d {
        0x7b
    } else {
        0
    }
}

/// Punctuation that ends a sentence rather than a link.
pub open spec fn is_trailing(c: u8) -> bool {
    c == 0x3f || c == 0x21 || c == 0x2e || c == 0x2c || c == 0x3a || c == 0
}

/// Where the entity that ends at `pos + link_end` would start, counted
/// from `pos`: before the letters that stand before the semicolon.
pub open spec fn entity_start(data: Seq<u8>, pos: int, link_end: int) -> int {
    skipped_back(data, pos + 1, pos + link_end - 1, Class::Alpha) - pos - 1
}

/// The length of the link without the punctuation and the entities that
/// end it.
pub open spec fn strip_trailing(data: Seq<u8>, pos: int, link_end: int) -> int
    decreases link_end,
{
    if link_end <= 0 {
        link_end
    } else if is_trailing(data[pos + link_end - 1]) {
        strip_trailing(data, pos, link_end - 1)
    } else if data[pos + link_end - 1] == 0x3b {
        if link_end >= 2 && entity_start(data, pos, link_end) < link_end - 2 && data[pos
            + entity_start(data, pos, link_end)] == 0x26 {
            proof {
                lemma_skipped_back(data, pos + 1, pos + link_end - 1, Class::Alpha);
            }
            strip_trailing(data, pos, entity_start(data, pos, link_end))
        } else {
            strip_trailing(data, pos, link_end - 1)
        }
    } else {
        link_end
    }
}

/// How often byte `c` stands from `from` up to `to`.
pub open spec fn count_of(data: Seq<u8>, from: int, to: int, c: u8) -> int
    decreases to - from,
{
    if to <= from {
        0
    } else {
        count_of(data, from, to - 1, c) + if data[to - 1] == c {
            1int
        } else {
            0int
        }
    }
}

/// The length of the link proper in a candidate of `link_end` bytes at
/// `pos`: it ends before a `<`, before trailing punctuation and entities,
/// and before a closing bracket or quote at its end that its text does not
/// open as often as it closes.
pub open spec fn spec_delim(data: Seq<u8>, pos: int, link_end: int) -> int {
    let cut = skipped(data, pos, pos + link_end, Class::Not(0x3c)) - pos;
    let e = strip_trailing(data, pos, cut);
    let cclose = data[pos + e - 1];
    let copen = opener_of(cclose);
    let opening = count_of(data, pos, pos + e, copen);
    let closing = if copen == cclose {
        0
    } else {
        count_of(data, pos, pos + e, cclose)
    };
    if e <= 0 {
        0
    } else if copen != 0 && closing != opening {
        e - 1
    } else {
        e
    }
}

/// Cuts a link candidate of `link_end` bytes at `pos` back to where the
/// link proper ends.
pub fn autolink_delim(data: &[u8], pos: usize, link_end: usize) -> (r: usize)
    requires
        pos + link_end <= data.len(),
    ensures
        r == spec_delim(data@, pos as int, link_end as int),
        r <= link_end,
{
    let cut: usize = skip(data, pos, pos + link_end, Class::Not(0x3c)) - pos;
    let mut e: usize = cut;
    while e > 0
        invariant
            e <= cut <= link_end,
            pos + link_end <= data.len(),
            strip_trailing(data@, pos as int, cut as int) == strip_trailing(
                data@,
                pos as int,
                e as int,
            ),
        ensures
            e <= cut,
            e == strip_trailing(data@, pos as int, cut as int),
        decreases e,
    {
        let c: u8 = data[pos + e - 1];
        if c == 0x3f || c == 0x21 || c == 0x2e || c == 0x2c || c == 0x3a || c == 0 {
            e -= 1;
        } else if c == 0x3b {
            if e < 2 {
                e -= 1;
            } else {
                let new_end: usize = skip_back(data, pos + 1, pos + e - 1, Class::Alpha) - pos - 1;
                if new_end < e - 2 && data[pos + new_end] == 0x26 {
                    e = new_end;
                } else {
                    e -= 1;
                }
            }
        } else {
            break ;
        }
    }
    if e == 0 {
        return 0;
    }
    let cclose: u8 = data[pos + e - 1];
    let copen: u8 = opener(cclose);
    if copen != 0 {
        let mut closing: usize = 0;
        let mut opening: usize = 0;
        let mut k: usize = 0;
        while k < e
            invariant
                k <= e,
                opening <= k,
                closing <= k,
                pos + e <= data.len(),
                opening == count_of(data@, pos as int, pos + k, copen),
                closing == if copen == cclose {
                    0
                } else {
                    count_of(data@, pos as int, pos + k, cclose)
                },
            decreases e - k,
        {
            if data[pos + k] == copen {
                opening += 1;
            } else if data[pos + k] == cclose {
                closing += 1;
            }
            k += 1;
        }
        if closing != opening {
            return e - 1;
        }
    }
    e
}

/// Where the scan of a host name stops, and how many dots and colons it
/// has passed: it goes on from `pos + i`, where `np` of them have been
/// seen, over letters, digits, `-`, dots and colons, and stops before the
/// last byte of the text.
pub open spec fn domain_scan(data: Seq<u8>, pos: int, end: int, i: int, np: int) -> (int, int)
    decreases end - pos - i,
{
    if i < end - pos - 1 {
        if data[pos + i] == 0x2e || data[pos + i] == 0x3a || data[pos + i] == 0 {
            domain_scan(data, pos, end, i + 1, np + 1)
        } else if !is_alnum(data[pos + i]) && data[pos + i] != 0x2d {
            (i, np)
        } else {
            domain_scan(data, pos, end, i + 1, np)
        }
    } else {
        (i, np)
    }
}

/// The length of the host name that starts at `pos`, or zero where there
/// is none.  Unless `allow_short`, a host name holds a dot or a colon.
pub open spec fn spec_check_domain(data: Seq<u8>, pos: int, end: int, allow_short: bool) -> int {
    let r = domain_scan(data, pos, end, 1, 0);
    if !is_alnum(data[pos]) {
        0
    } else if allow_short || r.1 > 0 {
        r.0
    } else {
        0
    }
}

/// The length of the host name that starts at `pos`, or zero where there
/// is none.
pub fn check_domain(data: &[u8], pos: usize, end: usize, allow_short: bool) -> (r: usize)
    requires
        pos < end <= data.len(),
    ensures
        r == spec_check_domain(data@, pos as int, end as int, allow_short),
        r <= end - pos,
{
    if !alnum(data[pos]) {
        return 0;
    }
    let size: usize = end - pos;
    let mut np: usize = 0;
    let mut i: usize = 1;
    while i < size - 1
        invariant
            1 <= i <= size,
            size == end - pos,
            end <= data.len(),
            np <= i,
            domain_scan(data@, pos as int, end as int, 1, 0) == domain_scan(
                data@,
                pos as int,
                end as int,
                i as int,
                np as int,
            ),
        ensures
            1 <= i <= size,
            (i as int, np as int) == domain_scan(data@, pos as int, end as int, 1, 0),
        decreases size - i,
    {
        let c: u8 = data[pos + i];
        if c == 0x2e || c == 0x3a || c == 0 {
            np += 1;
        } else if !alnum(c) && c != 0x2d {
            break ;
        }
        i += 1;
    }
    if allow_short {
        i
    } else if np > 0 {
        i
    } else {
        0
    }
}

/// The link that starts with `www.` at `pos`: a host name with a dot, and
/// what follows it up to the next white space, cut back to the link
/// proper.  No link where a letter or a digit stands before `pos`.
pub open spec fn spec_www(data: Seq<u8>, pos: int, end: int, max_rewind: int) -> Found {
    let d = spec_check_domain(data, pos, end, false);
    let e = skipped(data, pos + d, end, Class::NotWhite) - pos;
    if (max_rewind > 0 && !(is_punct(data[pos - 1]) || is_white(data[pos - 1]))) || end - pos < 4
        || !starts_with_at(data, pos, "www.".spec_bytes()) || d == 0 {
        Found { len: 0, rewind: 0 }
    } else {
        Found { len: spec_delim(data, pos, e) as usize, rewind: 0 }
    }
}

/// Recognises a link that starts with `www.` at `pos`.
pub fn autolink_www(data: &[u8], pos: usize, end: usize, max_rewind: usize) -> (f: Found)
    requires
        max_rewind <= pos <= end <= data.len(),
    ensures
        f == spec_www(data@, pos as int, end as int, max_rewind as int),
        f.len <= end - pos,
        f.rewind == 0,
{
    let none = Found { len: 0, rewind: 0 };
    if max_rewind > 0 && !(crate::chars::punct(data[pos - 1]) || crate::chars::white(
        data[pos - 1],
    )) {
        return none;
    }
    if end - pos < 4 || !crate::chars::has_prefix_at(data, pos, "www.".as_bytes()) {
        return none;
    }
    let d: usize = check_domain(data, pos, end, false);
    if d == 0 {
        return none;
    }
    let e: usize = skip(data, pos + d, end, Class::NotWhite) - pos;
    Found { len: autolink_delim(data, pos, e), rewind: 0 }
}

/// Where the scan of an email address stops, and how many `@` and dots it
/// has passed: it goes on from `pos + i` over letters, digits, `@`, `-`,
/// `_` and dots.
pub open spec fn email_scan(data: Seq<u8>, pos: int, end: int, i: int, nb: int, np: int) -> (
    int,
    int,
    int,
)
    decreases end - pos - i,
{
    if i < end - pos {
        if is_alnum(data[pos + i]) {
            email_scan(data, pos, end, i + 1, nb, np)
        } else if data[pos + i] == 0x40 {
            email_scan(data, pos, end, i + 1, nb + 1, np)
        } else if data[pos + i] == 0x2e && i < end - pos - 1 {
            email_scan(data, pos, end, i + 1, nb, np + 1)
        } else if data[pos + i] != 0x2d && data[pos + i] != 0x5f {
            (i, nb, np)
        } else {
            email_scan(data, pos, end, i + 1, nb, np)
        }
    } else {
        (i, nb, np)
    }
}

/// The email address around the `@` at `pos`: the bytes of a local part
/// before it, as far back as `max_rewind` allows, and a host name with a
/// dot after it that ends with a letter.
pub open spec fn spec_email(data: Seq<u8>, pos: int, end: int, max_rewind: int) -> Found {
    let rewind = pos - skipped_back(data, pos - max_rewind, pos, Class::Local);
    let r = email_scan(data, pos, end, 0, 0, 0);
    if rewind == 0 || r.0 < 2 || r.1 != 1 || r.2 == 0 || !is_alpha(data[pos + r.0 - 1])
        || spec_delim(data, pos, r.0) == 0 {
        Found { len: 0, rewind: 0 }
    } else {
        Found { len: spec_delim(data, pos, r.0) as usize, rewind: rewind as usize }
    }
}

/// Recognises an email address around the `@` at `pos`.
pub fn autolink_email(data: &[u8], pos: usize, end: usize, max_rewind: usize) -> (f: Found)
    requires
        max_rewind <= pos <= end <= data.len(),
    ensures
        f == spec_email(data@, pos as int, end as int, max_rewind as int),
        f.len <= end - pos,
        f.rewind <= max_rewind,
        f.len == 0 ==> f.rewind == 0,
{
    let none = Found { len: 0, rewind: 0 };
    let size: usize = end - pos;
    let rewind: usize = pos - skip_back(data, pos - max_rewind, pos, Class::Local);
    if rewind == 0 {
        return none;
    }
    let mut nb: usize = 0;
    let mut np: usize = 0;
    let mut link_end: usize = 0;
    while link_end < size
        invariant
            link_end <= size,
            size == end - pos,
            end <= data.len(),
            nb <= link_end,
            np <= link_end,
            email_scan(data@, pos as int, end as int, 0, 0, 0) == email_scan(
                data@,
                pos as int,
                end as int,
                link_end as int,
                nb as int,
                np as int,
            ),
        ensures
            link_end <= size,
            (link_end as int, nb as int, np as int) == email_scan(
                data@,
                pos as int,
                end as int,
                0,
                0,
                0,
            ),
        decreases size - link_end,
    {
        let c: u8 = data[pos + link_end];
        if !alnum(c) {
            if c == 0x40 {
                nb += 1;
            } else if c == 0x2e && link_end < size - 1 {
                np += 1;
            } else if c != 0x2d && c != 0x5f {
                break ;
            }
        }
        link_end += 1;
    }
    if link_end < 2 || nb != 1 || np == 0 || !alpha(data[pos + link_end - 1]) {
        return none;
    }
    let len: usize = autolink_delim(data, pos, link_end);
    if len == 0 {
        return none;
    }
    Found { len, rewind }
}

/// The URL around the `:` at `pos`: a scheme before it, as far back as
/// `max_rewind` allows, `//`, a host name with a dot, and what follows it
/// up to the next white space, cut back to the link proper.
pub open spec fn spec_url(data: Seq<u8>, pos: int, end: int, max_rewind: int) -> Found {
    let rewind = pos - skipped_back(data, pos - max_rewind, pos, Class::Alpha);
    let d = spec_check_domain(data, pos + 3, end, false);
    let e = skipped(data, pos + 3 + d, end, Class::NotWhite) - pos;
    if end - pos < 4 || data[pos + 1] != 0x2f || data[pos + 2] != 0x2f || !spec_is_safe(
        data,
        pos - rewind,
        end,
    ) || d == 0 || spec_delim(data, pos, e) == 0 {
        Found { len: 0, rewind: 0 }
    } else {
        Found { len: spec_delim(data, pos, e) as usize, rewind: rewind as usize }
    }
}

/// Recognises a URL around the `:` at `pos`.
pub fn autolink_url(data: &[u8], pos: usize, end: usize, max_rewind: usize) -> (f: Found)
    requires
        max_rewind <= pos <= end <= data.len(),
    ensures
        f == spec_url(data@, pos as int, end as int, max_rewind as int),
        f.len <= end - pos,
        f.rewind <= max_rewind,
        f.len == 0 ==> f.rewind == 0,
{
    let none = Found { len: 0, rewind: 0 };
    let size: usize = end - pos;
    if size < 4 || data[pos + 1] != 0x2f || data[pos + 2] != 0x2f {
        return none;
    }
    let rewind: usize = pos - skip_back(data, pos - max_rewind, pos, Class::Alpha);
    if !is_safe(data, pos - rewind, end) {
        return none;
    }
    let d: usize = check_domain(data, pos + 3, end, false);
    if d == 0 {
        return none;
    }
    let e: usize = skip(data, pos + 3 + d, end, Class::NotWhite) - pos;
    let len: usize = autolink_delim(data, pos, e);
    if len == 0 {
        return none;
    }
    Found { len, rewind }
}

} // verus!
