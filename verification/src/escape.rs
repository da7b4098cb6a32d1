//! Escaping of text content and comment content.
//!
//! Content escaping replaces the five markup-significant bytes (`&`, `<`,
//! `>`, `"`, `'`) with their character-entity references, which makes the
//! result safe for text content and for attribute values under either quote
//! character. Comment escaping breaks up `--` pairs, which comments must not
//! contain, by putting a space between the two dashes.

use vstd::prelude::*;
use vstd::string::StringSliceAdditionalSpecFns;

use crate::names::{B_DASH, has_either_byte};

verus! {

/// `&`
pub const B_AMP: u8 = 0x26;

/// `<`
pub const B_LT: u8 = 0x3c;

/// `>`
pub const B_GT: u8 = 0x3e;

/// `"`
pub const B_QUOT: u8 = 0x22;

/// `'`
pub const B_APOS: u8 = 0x27;

/// `;`
pub const B_SEMI: u8 = 0x3b;

/// ` `
pub const B_SPACE: u8 = 0x20;

/// The bytes of `&amp;`.
pub open spec fn amp_entity() -> Seq<u8> {
    seq![B_AMP, 0x61, 0x6d, 0x70, B_SEMI]
}

/// The bytes of `&lt;`.
pub open spec fn lt_entity() -> Seq<u8> {
    seq![B_AMP, 0x6c, 0x74, B_SEMI]
}

/// The bytes of `&gt;`.
pub open spec fn gt_entity() -> Seq<u8> {
    seq![B_AMP, 0x67, 0x74, B_SEMI]
}

/// The bytes of `&quot;`.
pub open spec fn quot_entity() -> Seq<u8> {
    seq![B_AMP, 0x71, 0x75, 0x6f, 0x74, B_SEMI]
}

/// The bytes of `&apos;`.
pub open spec fn apos_entity() -> Seq<u8> {
    seq![B_AMP, 0x61, 0x70, 0x6f, 0x73, B_SEMI]
}

/// What one byte of content becomes under content escaping.
pub open spec fn escape_byte(b: u8) -> Seq<u8> {
    if b == B_AMP {
        amp_entity()
    } else if b == B_LT {
        lt_entity()
    } else if b == B_GT {
        gt_entity()
    } else if b == B_QUOT {
        quot_entity()
    } else if b == B_APOS {
        apos_entity()
    } else {
        seq![b]
    }
}

/// The content-escaped form of `s`: every markup-significant byte replaced by
/// its entity.
pub open spec fn content_escaped(s: Seq<u8>) -> Seq<u8>
    decreases s.len(),
{
    if s.len() == 0 {
        Seq::empty()
    } else {
        escape_byte(s[0]) + content_escaped(s.drop_first())
    }
}

/// The comment-escaped form of `s`: a space is put between every pair of
/// adjacent dashes, so the result never contains `--`.
pub open spec fn comment_escaped(s: Seq<u8>) -> Seq<u8>
    decreases s.len(),
{
    if s.len() == 0 {
        Seq::empty()
    } else if s.len() >= 2 && s[0] == B_DASH && s[1] == B_DASH {
        seq![B_DASH, B_SPACE] + comment_escaped(s.drop_first())
    } else {
        seq![s[0]] + comment_escaped(s.drop_first())
    }
}

/// Escapes `s` for use as text content or as an attribute value.
pub fn content_escape(s: &str) -> (r: Vec<u8>)
    ensures
        r@ == content_escaped(s.spec_bytes()),
{
    let b = s.as_bytes();
    let mut out: Vec<u8> = Vec::new();
    assert(b@.skip(0) =~= b@);
    assert(out@ + content_escaped(b@) =~= content_escaped(b@));
    let mut i: usize = 0;
    while i < b.len()
        invariant
            0 <= i <= b@.len(),
            out@ + content_escaped(b@.skip(i as int)) == content_escaped(b@),
        decreases b@.len() - i,
    {
        let ghost pre = out@;
        let ghost rest = b@.skip(i as int);
        let c = b[i];
        if c == B_AMP {
            out.push(B_AMP);
            out.push(0x61);
            out.push(0x6d);
            out.push(0x70);
            out.push(B_SEMI);
        } else if c == B_LT {
            out.push(B_AMP);
            out.push(0x6c);
            out.push(0x74);
            out.push(B_SEMI);
        } else if c == B_GT {
            out.push(B_AMP);
            out.push(0x67);
            out.push(0x74);
            out.push(B_SEMI);
        } else if c == B_QUOT {
            out.push(B_AMP);
            out.push(0x71);
            out.push(0x75);
            out.push(0x6f);
            out.push(0x74);
            out.push(B_SEMI);
        } else if c == B_APOS {
            out.push(B_AMP);
            out.push(0x61);
            out.push(0x70);
            out.push(0x6f);
            out.push(0x73);
            out.push(B_SEMI);
        } else {
            out.push(c);
        }
        proof {
            assert(rest.len() > 0 && rest[0] == c);
            assert(rest.drop_first() =~= b@.skip(i as int + 1));
            assert(out@ =~= pre + escape_byte(c));
            assert(out@ + content_escaped(b@.skip(i as int + 1)) =~= content_escaped(b@));
        }
        i += 1;
    }
    assert(b@.skip(b@.len() as int) =~= Seq::<u8>::empty());
    assert(out@ =~= out@ + content_escaped(b@.skip(b@.len() as int)));
    out
}

/// Escapes `s` for use as comment content.
pub fn comment_escape(s: &str) -> (r: Vec<u8>)
    ensures
        r@ == comment_escaped(s.spec_bytes()),
{
    let b = s.as_bytes();
    let mut out: Vec<u8> = Vec::new();
    assert(b@.skip(0) =~= b@);
    assert(out@ + comment_escaped(b@) =~= comment_escaped(b@));
    let mut i: usize = 0;
    while i < b.len()
        invariant
            0 <= i <= b@.len(),
            out@ + comment_escaped(b@.skip(i as int)) == comment_escaped(b@),
        decreases b@.len() - i,
    {
        let ghost pre = out@;
        let ghost rest = b@.skip(i as int);
        let c = b[i];
        if c == B_DASH && i + 1 < b.len() && b[i + 1] == B_DASH {
            out.push(B_DASH);
            out.push(B_SPACE);
            proof {
                assert(rest.len() >= 2 && rest[0] == B_DASH && rest[1] == B_DASH);
                assert(out@ =~= pre + seq![B_DASH, B_SPACE]);
            }
        } else {
            out.push(c);
            proof {
                assert(rest[0] == c);
                assert(!(rest.len() >= 2 && rest[0] == B_DASH && rest[1] == B_DASH));
                assert(out@ =~= pre + seq![c]);
            }
        }
        proof {
            assert(rest.drop_first() =~= b@.skip(i as int + 1));
            assert(out@ + comment_escaped(b@.skip(i as int + 1)) =~= comment_escaped(b@));
        }
        i += 1;
    }
    assert(b@.skip(b@.len() as int) =~= Seq::<u8>::empty());
    assert(out@ =~= out@ + comment_escaped(b@.skip(b@.len() as int)));
    out
}

/// Content escaping never leaves a markup-significant byte in its result:
/// no `<`, `>`, `"` or `'` survives.
pub proof fn lemma_content_escaped_no_markup(s: Seq<u8>)
    ensures
        forall|i: int|
            0 <= i < content_escaped(s).len() ==> {
                &&& content_escaped(s)[i] != B_LT
                &&& content_escaped(s)[i] != B_GT
                &&& content_escaped(s)[i] != B_QUOT
                &&& content_escaped(s)[i] != B_APOS
            },
    decreases s.len(),
{
    if s.len() > 0 {
        lemma_content_escaped_no_markup(s.drop_first());
        assert forall|i: int| 0 <= i < content_escaped(s).len() implies {
            &&& content_escaped(s)[i] != B_LT
            &&& content_escaped(s)[i] != B_GT
            &&& content_escaped(s)[i] != B_QUOT
            &&& content_escaped(s)[i] != B_APOS
        } by {
            let head = escape_byte(s[0]);
            if i < head.len() {
                assert(content_escaped(s)[i] == head[i]);
            } else {
                assert(content_escaped(s)[i] == content_escaped(s.drop_first())[i - head.len()]);
            }
        }
    }
}

/// Content escaping neither introduces nor removes null bytes: the result
/// contains a null byte exactly when the input does.
pub proof fn lemma_content_escaped_nul(s: Seq<u8>)
    ensures
        has_either_byte(content_escaped(s), 0, 0) == has_either_byte(s, 0, 0),
    decreases s.len(),
{
    if s.len() > 0 {
        lemma_content_escaped_nul(s.drop_first());
        let head = escape_byte(s[0]);
        let tail = content_escaped(s.drop_first());
        if has_either_byte(s, 0, 0) {
            let i = choose|i: int| 0 <= i < s.len() && (s[i] == 0 || s[i] == 0);
            if i == 0 {
                assert(head == seq![s[0]]);
                assert(content_escaped(s)[0] == 0);
                assert(has_either_byte(content_escaped(s), 0, 0));
            } else {
                assert(s.drop_first()[i - 1] == 0);
                assert(has_either_byte(s.drop_first(), 0, 0));
                let j = choose|j: int| 0 <= j < tail.len() && (tail[j] == 0 || tail[j] == 0);
                assert(content_escaped(s)[head.len() + j] == 0);
                assert(has_either_byte(content_escaped(s), 0, 0));
            }
        }
        if has_either_byte(content_escaped(s), 0, 0) {
            let i = choose|i: int|
                0 <= i < content_escaped(s).len() && (content_escaped(s)[i] == 0
                    || content_escaped(s)[i] == 0);
            if i < head.len() {
                assert(head[i] == 0);
                assert(s[0] == 0);
                assert(has_either_byte(s, 0, 0));
            } else {
                assert(tail[i - head.len()] == 0);
                assert(has_either_byte(s.drop_first(), 0, 0));
                let j = choose|j: int|
                    0 <= j < s.drop_first().len() && (s.drop_first()[j] == 0 || s.drop_first()[j]
                        == 0);
                assert(s[j + 1] == 0);
                assert(has_either_byte(s, 0, 0));
            }
        }
    }
}

/// No two adjacent bytes of `s` are both dashes.
pub open spec fn no_double_dash(s: Seq<u8>) -> bool {
    forall|i: int| 0 <= i && i + 1 < s.len() ==> !(#[trigger] s[i] == B_DASH && s[i + 1] == B_DASH)
}

/// Comment escaping removes every `--` pair: its result never contains two
/// adjacent dashes, so in particular it never contains `-->`.
pub proof fn lemma_comment_escaped_no_double_dash(s: Seq<u8>)
    ensures
        no_double_dash(comment_escaped(s)),
    decreases s.len(),
{
    if s.len() > 0 {
        lemma_comment_escaped_no_double_dash(s.drop_first());
        lemma_comment_escaped_head(s.drop_first());
        let tail = comment_escaped(s.drop_first());
        let r = comment_escaped(s);
        if s.len() >= 2 && s[0] == B_DASH && s[1] == B_DASH {
            assert forall|i: int| 0 <= i && i + 1 < r.len() implies !(#[trigger] r[i] == B_DASH && r[i + 1]
                == B_DASH) by {
                if i == 0 {
                    assert(r[1] == B_SPACE);
                } else if i == 1 {
                    assert(r[1] == B_SPACE);
                } else {
                    assert(r[i] == tail[i - 2] && r[i + 1] == tail[i - 1]);
                }
            }
        } else {
            assert forall|i: int| 0 <= i && i + 1 < r.len() implies !(#[trigger] r[i] == B_DASH && r[i + 1]
                == B_DASH) by {
                if i == 0 {
                    assert(r[1] == tail[0] && tail[0] == s.drop_first()[0]);
                    assert(!(s[0] == B_DASH && s[1] == B_DASH));
                } else {
                    assert(r[i] == tail[i - 1] && r[i + 1] == tail[i]);
                }
            }
        }
    }
}

/// The comment-escaped form of a non-empty input is non-empty and starts
/// with the input's first byte.
proof fn lemma_comment_escaped_head(s: Seq<u8>)
    ensures
        s.len() == 0 ==> comment_escaped(s).len() == 0,
        s.len() > 0 ==> comment_escaped(s).len() > 0 && comment_escaped(s)[0] == s[0],
{
}

/// `p` is an initial segment of `s`.
pub open spec fn starts_with(s: Seq<u8>, p: Seq<u8>) -> bool {
    p.len() <= s.len() && s.take(p.len() as int) == p
}

/// Standard XML un-escaping: each of the five character-entity references
/// is turned back into its byte; every other byte stands for itself.
pub open spec fn content_unescaped(s: Seq<u8>) -> Seq<u8>
    decreases s.len(),
{
    if s.len() == 0 {
        Seq::empty()
    } else if starts_with(s, amp_entity()) {
        seq![B_AMP] + content_unescaped(s.skip(5))
    } else if starts_with(s, lt_entity()) {
        seq![B_LT] + content_unescaped(s.skip(4))
    } else if starts_with(s, gt_entity()) {
        seq![B_GT] + content_unescaped(s.skip(4))
    } else if starts_with(s, quot_entity()) {
        seq![B_QUOT] + content_unescaped(s.skip(6))
    } else if starts_with(s, apos_entity()) {
        seq![B_APOS] + content_unescaped(s.skip(6))
    } else {
        seq![s[0]] + content_unescaped(s.drop_first())
    }
}

/// Un-escaping what one byte was escaped to, followed by anything, gives
/// back that byte followed by the rest un-escaped.
proof fn lemma_unescape_one(b: u8, t: Seq<u8>)
    ensures
        content_unescaped(escape_byte(b) + t) == seq![b] + content_unescaped(t),
{
    let s = escape_byte(b) + t;
    if b == B_AMP {
        assert(starts_with(s, amp_entity())) by {
            assert(s.take(5) =~= amp_entity());
        }
        assert(s.skip(5) =~= t);
    } else if b == B_LT {
        assert(!starts_with(s, amp_entity())) by {
            assert(s[1] == 0x6c);
            assert(amp_entity()[1] == 0x61);
        }
        assert(starts_with(s, lt_entity())) by {
            assert(s.take(4) =~= lt_entity());
        }
        assert(s.skip(4) =~= t);
    } else if b == B_GT {
        assert(!starts_with(s, amp_entity())) by {
            assert(s[1] == 0x67);
        }
        assert(!starts_with(s, lt_entity())) by {
            assert(s[1] == 0x67);
        }
        assert(starts_with(s, gt_entity())) by {
            assert(s.take(4) =~= gt_entity());
        }
        assert(s.skip(4) =~= t);
    } else if b == B_QUOT {
        assert(!starts_with(s, amp_entity())) by {
            assert(s[1] == 0x71);
        }
        assert(!starts_with(s, lt_entity())) by {
            assert(s[1] == 0x71);
        }
        assert(!starts_with(s, gt_entity())) by {
            assert(s[1] == 0x71);
        }
        assert(starts_with(s, quot_entity())) by {
            assert(s.take(6) =~= quot_entity());
        }
        assert(s.skip(6) =~= t);
    } else if b == B_APOS {
        assert(!starts_with(s, amp_entity())) by {
            assert(s[2] == 0x70);
            assert(amp_entity()[2] == 0x6d);
        }
        assert(!starts_with(s, lt_entity())) by {
            assert(s[1] == 0x61);
            assert(lt_entity()[1] == 0x6c);
        }
        assert(!starts_with(s, gt_entity())) by {
            assert(s[1] == 0x61);
        }
        assert(!starts_with(s, quot_entity())) by {
            assert(s[1] == 0x61);
        }
        assert(starts_with(s, apos_entity())) by {
            assert(s.take(6) =~= apos_entity());
        }
        assert(s.skip(6) =~= t);
    } else {
        assert(s[0] == b);
        assert(!starts_with(s, amp_entity()));
        assert(!starts_with(s, lt_entity()));
        assert(!starts_with(s, gt_entity()));
        assert(!starts_with(s, quot_entity()));
        assert(!starts_with(s, apos_entity()));
        assert(s.drop_first() =~= t);
    }
}

/// Escaping is lossless: standard XML un-escaping of the content-escaped
/// form of any byte sequence gives back that sequence exactly.
pub proof fn lemma_content_escape_roundtrip(s: Seq<u8>)
    ensures
        content_unescaped(content_escaped(s)) == s,
    decreases s.len(),
{
    if s.len() == 0 {
        assert(content_escaped(s) =~= Seq::<u8>::empty());
    } else {
        lemma_content_escape_roundtrip(s.drop_first());
        lemma_unescape_one(s[0], content_escaped(s.drop_first()));
        assert(content_unescaped(content_escaped(s)) =~= s);
    }
}

} // verus!
