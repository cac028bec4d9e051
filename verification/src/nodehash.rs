//! Prefixes of git hashes, and what resolving one can give.

use vstd::prelude::*;
use vstd::string::StringSliceAdditionalSpecFns;
use crate::errors::ParseError;
use crate::hash::GitSha1;
use crate::bytes_order::{
    first_difference, lemma_first_difference, lemma_first_difference_decides,
};
use crate::hex::{
    decode_hex, find_non_hex, first_non_hex, hex_byte_at, hex_digit_value, is_hex, is_hex_digit,
};

verus! {

/// `text` followed by as many copies of `digit` as it takes to make 40 digits.
pub open spec fn pad_hex(text: Seq<u8>, digit: u8) -> Seq<u8> {
    text + Seq::new((40 - text.len()) as nat, |i: int| digit)
}

/// `bytes` followed by as many copies of `fill` as it takes to make 20 bytes.
pub open spec fn pad_bytes(bytes: Seq<u8>, fill: u8) -> Seq<u8> {
    bytes + Seq::new((20 - bytes.len()) as nat, |i: int| fill)
}

/// The leading hexadecimal digits of a git hash. It stands for the closed range of hashes
/// from `min_cs` (the digits followed by zeros) to `max_cs` (the digits followed by `f`s).
#[derive(Clone, Copy, Debug, PartialEq, Eq, Hash)]
pub struct GitSha1Prefix {
    min: GitSha1,
    max: GitSha1,
}

impl GitSha1Prefix {
    /// The smallest hash of the range.
    pub closed spec fn spec_min(&self) -> GitSha1 {
        self.min
    }

    /// The largest hash of the range.
    pub closed spec fn spec_max(&self) -> GitSha1 {
        self.max
    }

    /// `hash` lies in the range that the prefix stands for.
    pub open spec fn covers(&self, hash: GitSha1) -> bool {
        self.spec_min().value() <= hash.value() <= self.spec_max().value()
    }

    /// The prefix made of whole bytes: at most 20 of them.
    pub fn from_bytes(bytes: &[u8]) -> (r: Result<Self, ParseError>)
        ensures
            match r {
                Ok(p) => bytes@.len() <= 20 && p.spec_min()@ == pad_bytes(bytes@, 0x00)
                    && p.spec_max()@ == pad_bytes(bytes@, 0xff),
                Err(e) => bytes@.len() > 20 && e == (ParseError::InvalidLength {
                    len: bytes@.len() as usize,
                }),
            },
    {
        if bytes.len() > 20 {
            return Err(ParseError::InvalidLength { len: bytes.len() });
        }
        let mut min: [u8; 20] = [0x00u8;20];
        let mut max: [u8; 20] = [0xffu8;20];
        let mut i: usize = 0;
        while i < bytes.len()
            invariant
                bytes@.len() <= 20,
                0 <= i <= bytes@.len(),
                forall|j: int| 0 <= j < i ==> min@[j] == bytes@[j] && max@[j] == bytes@[j],
                forall|j: int| i <= j < 20 ==> min@[j] == 0x00 && max@[j] == 0xff,
            decreases bytes@.len() - i,
        {
            min[i] = bytes[i];
            max[i] = bytes[i];
            i += 1;
        }
        assert(min@ =~= pad_bytes(bytes@, 0x00));
        assert(max@ =~= pad_bytes(bytes@, 0xff));
        Ok(GitSha1Prefix { min: GitSha1(min), max: GitSha1(max) })
    }

    /// The prefix written as at most 40 hexadecimal digits, of either case. An odd number
    /// of digits is accepted: the last digit then fixes the high half of its byte.
    pub fn from_hex(text: &[u8]) -> (r: Result<Self, ParseError>)
        ensures
            match r {
                Ok(p) => text@.len() <= 40 && is_hex(text@) && p.spec_min()@ == decode_hex(
                    pad_hex(text@, 0x30),
                ) && p.spec_max()@ == decode_hex(pad_hex(text@, 0x66)) && forall|hash: GitSha1|
                    #[trigger] p.covers(hash) <==> has_hex_prefix(hash@, text@),
                Err(ParseError::InvalidLength { len }) => text@.len() > 40 && len == text@.len(),
                Err(ParseError::InvalidHex { position }) => text@.len() <= 40 && !is_hex(text@)
                    && position == first_non_hex(text@),
                Err(ParseError::NotAscii { .. }) => false,
            },
    {
        if text.len() > 40 {
            return Err(ParseError::InvalidLength { len: text.len() });
        }
        if let Some(position) = find_non_hex(text) {
            return Err(ParseError::InvalidHex { position });
        }
        let mut low: Vec<u8> = Vec::with_capacity(40);
        let mut high: Vec<u8> = Vec::with_capacity(40);
        let mut i: usize = 0;
        while i < 40
            invariant
                text@.len() <= 40,
                0 <= i <= 40,
                low@.len() == i,
                high@.len() == i,
                forall|j: int| 0 <= j < i ==> low@[j] == pad_hex(text@, 0x30)[j],
                forall|j: int| 0 <= j < i ==> high@[j] == pad_hex(text@, 0x66)[j],
            decreases 40 - i,
        {
            if i < text.len() {
                low.push(text[i]);
                high.push(text[i]);
            } else {
                low.push(0x30);
                high.push(0x66);
            }
            i += 1;
        }
        assert(low@ =~= pad_hex(text@, 0x30));
        assert(high@ =~= pad_hex(text@, 0x66));
        assert(is_hex(low@)) by {
            assert forall|j: int| 0 <= j < low@.len() implies is_hex_digit(#[trigger] low@[j]) by {
                if j < text@.len() {
                    assert(low@[j] == text@[j]);
                }
            }
        }
        assert(is_hex(high@)) by {
            assert forall|j: int| 0 <= j < high@.len() implies is_hex_digit(
                #[trigger] high@[j],
            ) by {
                if j < text@.len() {
                    assert(high@[j] == text@[j]);
                }
            }
        }
        match (GitSha1::from_hex(low.as_slice()), GitSha1::from_hex(high.as_slice())) {
            (Ok(min), Ok(max)) => {
                let p = GitSha1Prefix { min, max };
                assert forall|hash: GitSha1| #[trigger]
                    p.covers(hash) <==> has_hex_prefix(hash@, text@) by {
                    law_prefix_range(text@, min, max, hash);
                }
                Ok(p)
            },
            (Err(e), _) => {
                assert(false);
                Err(e)
            },
            (_, Err(e)) => {
                assert(false);
                Err(e)
            },
        }
    }

    /// The prefix that `s` spells in hexadecimal digits.
    pub fn from_str(s: &str) -> (r: Result<Self, ParseError>)
        ensures
            match r {
                Ok(p) => s.spec_bytes().len() <= 40 && is_hex(s.spec_bytes()) && p.spec_min()@
                    == decode_hex(pad_hex(s.spec_bytes(), 0x30)) && p.spec_max()@ == decode_hex(
                    pad_hex(s.spec_bytes(), 0x66),
                ) && forall|hash: GitSha1| #[trigger]
                    p.covers(hash) <==> has_hex_prefix(hash@, s.spec_bytes()),
                Err(ParseError::InvalidLength { len }) => s.spec_bytes().len() > 40 && len
                    == s.spec_bytes().len(),
                Err(ParseError::InvalidHex { position }) => s.spec_bytes().len() <= 40 && !is_hex(
                    s.spec_bytes(),
                ) && position == first_non_hex(s.spec_bytes()),
                Err(ParseError::NotAscii { .. }) => false,
            },
    {
        Self::from_hex(s.as_bytes())
    }

    /// The smallest hash with this prefix.
    pub fn min_cs(&self) -> (h: GitSha1)
        ensures
            h == self.spec_min(),
    {
        self.min
    }

    /// The largest hash with this prefix.
    pub fn max_cs(&self) -> (h: GitSha1)
        ensures
            h == self.spec_max(),
    {
        self.max
    }

    /// The bytes of the smallest hash with this prefix.
    pub fn min_as_ref(&self) -> (bytes: &[u8])
        ensures
            bytes@ == self.spec_min()@,
    {
        self.min.as_bytes()
    }

    /// The bytes of the largest hash with this prefix.
    pub fn max_as_ref(&self) -> (bytes: &[u8])
        ensures
            bytes@ == self.spec_max()@,
    {
        self.max.as_bytes()
    }

    /// The one hash that the prefix stands for, where it is a whole hash.
    pub fn into_git_sha1(self) -> (r: Option<GitSha1>)
        ensures
            r == if self.spec_min() == self.spec_max() {
                Some(self.spec_min())
            } else {
                None
            },
    {
        if self.min.equals(&self.max) {
            Some(self.min)
        } else {
            None
        }
    }
}

/// The hexadecimal digit at `i` of `bytes`, as a number: the high half of a byte comes
/// first.
pub open spec fn nibble(bytes: Seq<u8>, i: int) -> int {
    if i % 2 == 0 {
        bytes[i / 2] as int / 16
    } else {
        bytes[i / 2] as int % 16
    }
}

/// Written in hexadecimal digits, `bytes` start with the digits of `text`.
pub open spec fn has_hex_prefix(bytes: Seq<u8>, text: Seq<u8>) -> bool {
    forall|i: int| 0 <= i < text.len() ==> nibble(bytes, i) == hex_digit_value(#[trigger] text[i])
}

/// The byte at `k` of the smallest and of the largest hash with the digits of `text`.
proof fn lemma_bounds_byte(text: Seq<u8>, min: Seq<u8>, max: Seq<u8>, k: int)
    requires
        text.len() <= 40,
        is_hex(text),
        min == decode_hex(pad_hex(text, 0x30)),
        max == decode_hex(pad_hex(text, 0x66)),
        0 <= k < 20,
    ensures
        min.len() == 20,
        max.len() == 20,
        2 * k + 1 < text.len() ==> min[k] == max[k] && nibble(min, 2 * k) == hex_digit_value(
            text[2 * k],
        ) && nibble(min, 2 * k + 1) == hex_digit_value(text[2 * k + 1]),
        2 * k + 1 == text.len() ==> min[k] == 16 * hex_digit_value(text[2 * k]) && max[k] == 16
            * hex_digit_value(text[2 * k]) + 15,
        2 * k >= text.len() ==> min[k] == 0 && max[k] == 255,
{
    let low = pad_hex(text, 0x30);
    let high = pad_hex(text, 0x66);
    assert(low.len() == 40 && high.len() == 40);
    assert(min[k] == hex_byte_at(low, k));
    assert(max[k] == hex_byte_at(high, k));
    if 2 * k < text.len() {
        assert(low[2 * k] == text[2 * k] && high[2 * k] == text[2 * k]);
        assert(is_hex_digit(text[2 * k]));
    } else {
        assert(low[2 * k] == 0x30 && high[2 * k] == 0x66);
    }
    if 2 * k + 1 < text.len() {
        assert(low[2 * k + 1] == text[2 * k + 1] && high[2 * k + 1] == text[2 * k + 1]);
        assert(is_hex_digit(text[2 * k + 1]));
        assert((2 * k) / 2 == k && (2 * k + 1) / 2 == k);
        assert((2 * k) % 2 == 0 && (2 * k + 1) % 2 == 1);
    } else {
        assert(low[2 * k + 1] == 0x30 && high[2 * k + 1] == 0x66);
    }
}

/// The range of a prefix is the set of hashes that start with its digits: a hash lies
/// between the digits followed by zeros and the digits followed by `f`s exactly if its own
/// digits start with them.
pub proof fn law_prefix_range(text: Seq<u8>, min: GitSha1, max: GitSha1, hash: GitSha1)
    requires
        text.len() <= 40,
        is_hex(text),
        min@ == decode_hex(pad_hex(text, 0x30)),
        max@ == decode_hex(pad_hex(text, 0x66)),
    ensures
        (min.value() <= hash.value() <= max.value()) <==> has_hex_prefix(hash@, text),
{
    let h = hash@;
    let lo = min@;
    let hi = max@;
    lemma_bounds_byte(text, lo, hi, 0);
    assert(h.len() == 20);
    if has_hex_prefix(h, text) {
        // the hash is not below the smallest
        let j = first_difference(lo, h, 0);
        lemma_first_difference(lo, h, 0);
        if j < 20 {
            lemma_bounds_byte(text, lo, hi, j);
            if 2 * j + 1 < text.len() {
                assert(nibble(h, 2 * j) == hex_digit_value(text[2 * j]));
                assert(nibble(h, 2 * j + 1) == hex_digit_value(text[2 * j + 1]));
                assert((2 * j) / 2 == j && (2 * j + 1) / 2 == j);
                assert((2 * j) % 2 == 0 && (2 * j + 1) % 2 == 1);
                assert(false);
            } else if 2 * j + 1 == text.len() {
                assert(nibble(h, 2 * j) == hex_digit_value(text[2 * j]));
                assert((2 * j) / 2 == j && (2 * j) % 2 == 0);
            }
            assert(lo[j] < h[j]);
            lemma_first_difference_decides(lo, h, j);
        }
        // and not above the largest
        let m = first_difference(h, hi, 0);
        lemma_first_difference(h, hi, 0);
        if m < 20 {
            lemma_bounds_byte(text, lo, hi, m);
            if 2 * m + 1 < text.len() {
                assert(nibble(h, 2 * m) == hex_digit_value(text[2 * m]));
                assert(nibble(h, 2 * m + 1) == hex_digit_value(text[2 * m + 1]));
                assert((2 * m) / 2 == m && (2 * m + 1) / 2 == m);
                assert((2 * m) % 2 == 0 && (2 * m + 1) % 2 == 1);
                assert(false);
            } else if 2 * m + 1 == text.len() {
                assert(nibble(h, 2 * m) == hex_digit_value(text[2 * m]));
                assert((2 * m) / 2 == m && (2 * m) % 2 == 0);
            }
            assert(h[m] < hi[m]);
            lemma_first_difference_decides(h, hi, m);
        }
    }
    if min.value() <= hash.value() <= max.value() {
        assert forall|i: int| 0 <= i < text.len() implies nibble(h, i) == hex_digit_value(
            #[trigger] text[i],
        ) by {
            let j = first_difference(h, lo, 0);
            lemma_first_difference(h, lo, 0);
            let k = i / 2;
            lemma_bounds_byte(text, lo, hi, k);
            if j <= k {
                // the hash leaves the smallest at a byte that the digits fix at least in half
                lemma_bounds_byte(text, lo, hi, j);
                assert forall|b: int| 0 <= b < j implies h[b] == hi[b] by {
                    lemma_bounds_byte(text, lo, hi, b);
                }
                if h[j] < lo[j] {
                    lemma_first_difference_decides(h, lo, j);
                } else {
                    if 2 * j + 1 < text.len() {
                        assert(hi[j] < h[j]);
                    } else {
                        assert(2 * j + 1 == text.len());
                        assert(i == 2 * j);
                        assert(nibble(h, i) == h[j] as int / 16);
                        if h[j] as int / 16 == hex_digit_value(text[2 * j]) {
                        } else {
                            assert(hi[j] < h[j]);
                        }
                    }
                    if hi[j] < h[j] {
                        lemma_first_difference_decides(hi, h, j);
                    }
                }
            } else {
                assert(h[k] == lo[k]);
                if i % 2 == 0 {
                    assert(i == 2 * k);
                } else {
                    assert(i == 2 * k + 1);
                }
            }
        }
    }
}

/// What resolving a prefix gave, as a mathematical value.
pub enum ResolvedView {
    NoMatch,
    Single(GitSha1),
    Multiple(Seq<GitSha1>),
    TooMany(Seq<GitSha1>),
}

/// What resolving a prefix gave.
#[derive(Clone, Debug, PartialEq, Eq)]
pub enum GitSha1sResolvedFromPrefix {
    /// Exactly one hash has the prefix.
    Single(GitSha1),
    /// Several hashes have the prefix, and these are all of them.
    Multiple(Vec<GitSha1>),
    /// More hashes have the prefix than were asked for; these are the first of them.
    TooMany(Vec<GitSha1>),
    /// No hash has the prefix.
    NoMatch,
}

impl View for GitSha1sResolvedFromPrefix {
    type V = ResolvedView;

    open spec fn view(&self) -> ResolvedView {
        match self {
            GitSha1sResolvedFromPrefix::NoMatch => ResolvedView::NoMatch,
            GitSha1sResolvedFromPrefix::Single(h) => ResolvedView::Single(*h),
            GitSha1sResolvedFromPrefix::Multiple(v) => ResolvedView::Multiple(v@),
            GitSha1sResolvedFromPrefix::TooMany(v) => ResolvedView::TooMany(v@),
        }
    }
}

/// How the hashes fetched for a prefix are reported, where at most `limit` were wanted
/// and one more was asked for to learn whether more exist.
pub open spec fn classify(fetched: Seq<GitSha1>, limit: nat) -> ResolvedView {
    if fetched.len() == 0 {
        ResolvedView::NoMatch
    } else if fetched.len() == 1 {
        ResolvedView::Single(fetched[0])
    } else if fetched.len() <= limit {
        ResolvedView::Multiple(fetched)
    } else {
        ResolvedView::TooMany(fetched.take(limit as int))
    }
}

/// One more than `limit`, where the machine can count that far.
pub open spec fn spec_probe_limit(limit: usize) -> usize {
    if limit < usize::MAX {
        (limit + 1) as usize
    } else {
        limit
    }
}

/// How many hashes to ask for when at most `limit` are wanted: one more, so that a full
/// answer shows that more exist.
#[verifier::when_used_as_spec(spec_probe_limit)]
pub fn probe_limit(limit: usize) -> (probe: usize)
    ensures
        probe == spec_probe_limit(limit),
{
    if limit < usize::MAX {
        limit + 1
    } else {
        limit
    }
}

impl GitSha1sResolvedFromPrefix {
    /// Reports the hashes that were fetched for a prefix with `probe_limit(limit)`.
    pub fn from_fetched(fetched: Vec<GitSha1>, limit: usize) -> (r: Self)
        ensures
            r@ == classify(fetched@, limit as nat),
    {
        let n = fetched.len();
        if n == 0 {
            GitSha1sResolvedFromPrefix::NoMatch
        } else if n == 1 {
            GitSha1sResolvedFromPrefix::Single(fetched[0])
        } else if n <= limit {
            GitSha1sResolvedFromPrefix::Multiple(fetched)
        } else {
            let mut fetched = fetched;
            fetched.truncate(limit);
            GitSha1sResolvedFromPrefix::TooMany(fetched)
        }
    }

    /// The hashes that the outcome holds, in their order.
    pub open spec fn hashes(&self) -> Seq<GitSha1> {
        match self {
            GitSha1sResolvedFromPrefix::NoMatch => Seq::empty(),
            GitSha1sResolvedFromPrefix::Single(h) => seq![*h],
            GitSha1sResolvedFromPrefix::Multiple(v) => v@,
            GitSha1sResolvedFromPrefix::TooMany(v) => v@,
        }
    }

    /// The hashes that the outcome holds, in their order.
    pub fn to_vec(&self) -> (v: Vec<GitSha1>)
        ensures
            v@ == self.hashes(),
    {
        match self {
            GitSha1sResolvedFromPrefix::NoMatch => Vec::new(),
            GitSha1sResolvedFromPrefix::Single(h) => {
                let mut v: Vec<GitSha1> = Vec::new();
                v.push(*h);
                v
            },
            GitSha1sResolvedFromPrefix::Multiple(v) => v.clone(),
            GitSha1sResolvedFromPrefix::TooMany(v) => v.clone(),
        }
    }
}

} // verus!
