//! Scene-description text cleanup: lower-casing, spacing out punctuation,
//! collapsing stray whitespace, and ordering declaration lines by kind.
//! Everything works on the ASCII bytes of the text; one trusted conversion
//! turns the cleaned bytes back into a string.

use vstd::prelude::*;
use vstd::string::{StrSliceExecFns, StringExecFnsIsAscii, StringSliceAdditionalSpecFns, is_ascii_spec_bytes};

verus! {

/// ASCII lower-casing of a byte sequence: letters `A` to `Z` gain 32,
/// everything else is unchanged.
pub open spec fn lower_bytes(s: Seq<u8>) -> Seq<u8> {
    s.map_values(|b: u8| if 65 <= b <= 90 { (b + 32) as u8 } else { b })
}

/// Punctuation spacing: a space is inserted after every `;` and `,`, and
/// after every `//` pair (whose two bytes are consumed together).
pub open spec fn split_punct_bytes(s: Seq<u8>) -> Seq<u8>
    decreases s.len(),
{
    if s.len() == 0 {
        Seq::empty()
    } else if s[0] == 59 || s[0] == 44 {
        seq![s[0], 32u8] + split_punct_bytes(s.skip(1))
    } else if s.len() >= 2 && s[0] == 47 && s[1] == 47 {
        seq![47u8, 47u8, 32u8] + split_punct_bytes(s.skip(2))
    } else {
        seq![s[0]] + split_punct_bytes(s.skip(1))
    }
}

/// All bytes below 128.
pub open spec fn ascii_bytes(s: Seq<u8>) -> bool {
    forall|i: int| 0 <= i < s.len() ==> #[trigger] s[i] < 128
}

/// The bytes of an ASCII character sequence.
pub open spec fn bytes_of_ascii(s: Seq<char>) -> Seq<u8> {
    Seq::new(s.len(), |i: int| s[i] as u8)
}


/// The ASCII bytes of an ASCII string.
pub fn ascii_bytes_of(s: &String) -> (bytes: Vec<u8>)
    requires
        s.is_ascii(),
    ensures
        bytes@ == bytes_of_ascii(s@),
        ascii_bytes(bytes@),
{
    let sref = s.as_str();
    proof {
        broadcast use is_ascii_spec_bytes;
        assert(vstd::string::is_ascii(sref));
    }
    let bytes = sref.as_bytes_vec();
    proof {
        assert(bytes@ =~= bytes_of_ascii(s@));
        assert forall|i: int| 0 <= i < bytes@.len() implies #[trigger] bytes@[i] < 128 by {
            assert('\0' <= s@[i] <= '\u{7f}');
        }
    }
    bytes
}

/// Relies on String::from_utf8: ASCII bytes are valid UTF-8, the call
/// succeeds, and each resulting character is the corresponding byte.
#[verifier::external_body]
fn string_from_ascii(bytes: Vec<u8>) -> (r: String)
    requires
        ascii_bytes(bytes@),
    ensures
        r@.len() == bytes@.len(),
        forall|i: int| 0 <= i < r@.len() ==> #[trigger] r@[i] == bytes@[i] as char,
        forall|i: int| 0 <= i < r@.len() ==> #[trigger] r@[i] as u8 == bytes@[i],
        r.is_ascii(),
{
    match String::from_utf8(bytes) {
        Ok(s) => s,
        Err(_) => String::new(),
    }
}

/// Lower-case the ASCII letters of the scene text.
pub fn lowercase(scene: String) -> (r: String)
    requires
        scene.is_ascii(),
    ensures
        r.is_ascii(),
        bytes_of_ascii(r@) == lower_bytes(bytes_of_ascii(scene@)),
{
    proof {
        broadcast use is_ascii_spec_bytes;
    }
    let bytes = ascii_bytes_of(&scene);
    let mut out: Vec<u8> = Vec::new();
    let mut i: usize = 0;
    while i < bytes.len()
        invariant
            i <= bytes@.len(),
            ascii_bytes(bytes@),
            out@ == lower_bytes(bytes@.take(i as int)),
            ascii_bytes(out@),
        decreases bytes@.len() - i,
    {
        let b = bytes[i];
        let c: u8 = if 65 <= b && b <= 90 { b + 32 } else { b };
        out.push(c);
        proof {
            assert(bytes@.take(i + 1).drop_last() =~= bytes@.take(i as int));
            assert(out@ =~= lower_bytes(bytes@.take(i + 1)));
        }
        i += 1;
    }
    proof {
        assert(bytes@.take(bytes@.len() as int) =~= bytes@);
    }
    let r = string_from_ascii(out);
    proof {
        assert(bytes_of_ascii(r@) =~= out@);
    }
    r
}

/// Insert a space after each punctuation mark so that later tokenising
/// splits fields apart.
pub fn split_punctuation(scene: String) -> (r: String)
    requires
        scene.is_ascii(),
    ensures
        r.is_ascii(),
        bytes_of_ascii(r@) == split_punct_bytes(bytes_of_ascii(scene@)),
{
    proof {
        broadcast use is_ascii_spec_bytes;
    }
    let bytes = ascii_bytes_of(&scene);
    let out = split_punct_rec(&bytes, 0);
    proof {
        assert(bytes@.skip(0) =~= bytes@);
    }
    let r = string_from_ascii(out);
    proof {
        assert(bytes_of_ascii(r@) =~= out@);
    }
    r
}

/// The spaced-out suffix of `bytes` from index `i` on.
fn split_punct_rec(bytes: &Vec<u8>, i: usize) -> (r: Vec<u8>)
    requires
        i <= bytes@.len(),
        ascii_bytes(bytes@),
    ensures
        r@ == split_punct_bytes(bytes@.skip(i as int)),
        ascii_bytes(r@),
    decreases bytes@.len() - i,
{
    let ghost suffix = bytes@.skip(i as int);
    if i == bytes.len() {
        let r: Vec<u8> = Vec::new();
        proof {
            assert(suffix =~= Seq::<u8>::empty());
        }
        r
    } else {
        let b = bytes[i];
        proof {
            assert(suffix[0] == bytes@[i as int]);
        }
        if b == 59 || b == 44 {
            let mut r = split_punct_rec(bytes, i + 1);
            r.insert(0, 32);
            r.insert(0, b);
            proof {
                assert(bytes@.skip(i as int).skip(1) =~= bytes@.skip(i + 1));
                assert(r@ =~= seq![b, 32u8] + split_punct_bytes(bytes@.skip(i + 1)));
            }
            r
        } else if b == 47 && i + 1 < bytes.len() && bytes[i + 1] == 47 {
            let mut r = split_punct_rec(bytes, i + 2);
            r.insert(0, 32);
            r.insert(0, 47);
            r.insert(0, 47);
            proof {
                assert(bytes@.skip(i as int).skip(2) =~= bytes@.skip(i + 2));
                assert(suffix.len() >= 2 && suffix[1] == bytes@[i + 1]);
                assert(r@ =~= seq![47u8, 47u8, 32u8] + split_punct_bytes(bytes@.skip(i + 2)));
            }
            r
        } else {
            let mut r = split_punct_rec(bytes, i + 1);
            r.insert(0, b);
            proof {
                assert(bytes@.skip(i as int).skip(1) =~= bytes@.skip(i + 1));
                if b == 47 && i + 1 < bytes@.len() {
                    assert(suffix[1] == bytes@[i + 1]);
                }
                assert(r@ =~= seq![b] + split_punct_bytes(bytes@.skip(i + 1)));
            }
            r
        }
    }
}

/// The visible content of the text: its bytes with every blank (space,
/// tab, newline, carriage return) removed, in order.
pub open spec fn visible_bytes(s: Seq<u8>) -> Seq<u8>
    decreases s.len(),
{
    if s.len() == 0 {
        Seq::empty()
    } else {
        let rest = visible_bytes(s.drop_last());
        let b = s.last();
        if b == 32 || b == 9 || b == 10 || b == 13 {
            rest
        } else {
            rest.push(b)
        }
    }
}

/// No byte anywhere in `s` is a tab or carriage return, no two spaces are
/// adjacent, no space borders a newline, and no three newlines are
/// adjacent: the shape `clean_whitespace` guarantees.
pub open spec fn whitespace_clean(s: Seq<u8>) -> bool {
    &&& forall|i: int| 0 <= i < s.len() ==> #[trigger] s[i] != 9 && s[i] != 13
    &&& forall|i: int| 0 <= i < s.len() - 1 ==> !(#[trigger] s[i] == 32 && s[i + 1] == 32)
    &&& forall|i: int| 0 <= i < s.len() - 1 ==> !(#[trigger] s[i] == 32 && s[i + 1] == 10)
        && !(s[i] == 10 && s[i + 1] == 32)
    &&& forall|i: int| 0 <= i < s.len() - 2 ==> !(#[trigger] s[i] == 10 && s[i + 1] == 10
        && s[i + 2] == 10)
}

/// Normalise whitespace: within each line, runs of spaces and tabs become
/// single spaces and leading/trailing blanks disappear; carriage returns
/// vanish; runs of three or more newlines collapse to two. Only blanks are
/// touched: the visible bytes come through unchanged, in order.
pub fn clean_whitespace(scene: String) -> (r: String)
    requires
        scene.is_ascii(),
    ensures
        r.is_ascii(),
        whitespace_clean(bytes_of_ascii(r@)),
        visible_bytes(bytes_of_ascii(r@)) == visible_bytes(bytes_of_ascii(scene@)),
{
    proof {
        broadcast use is_ascii_spec_bytes;
    }
    let bytes = ascii_bytes_of(&scene);
    let mut out: Vec<u8> = Vec::new();
    // `pending_space` records a blank seen since the last visible byte on
    // the current line; it is emitted only when another visible byte
    // follows on the same line.
    let mut pending_space = false;
    let mut i: usize = 0;
    while i < bytes.len()
        invariant
            i <= bytes@.len(),
            ascii_bytes(bytes@),
            ascii_bytes(out@),
            whitespace_clean(out@),
            out@.len() > 0 ==> out@[out@.len() - 1] != 32,
            pending_space ==> out@.len() > 0 && out@[out@.len() - 1] != 10,
            visible_bytes(out@) == visible_bytes(bytes@.take(i as int)),
        decreases bytes@.len() - i,
    {
        let b = bytes[i];
        proof {
            assert(bytes@.take(i + 1).drop_last() =~= bytes@.take(i as int));
            assert(bytes@.take(i + 1).last() == bytes@[i as int]);
            assert(visible_bytes(bytes@.take(i + 1)) == if b == 32 || b == 9 || b == 10
                || b == 13 {
                visible_bytes(bytes@.take(i as int))
            } else {
                visible_bytes(bytes@.take(i as int)).push(b)
            });
        }
        if b == 32 || b == 9 || b == 13 {
            let n = out.len();
            if b != 13 && n > 0 && out[n - 1] != 10 {
                pending_space = true;
            }
        } else if b == 10 {
            pending_space = false;
            let n = out.len();
            if n >= 2 && out[n - 1] == 10 && out[n - 2] == 10 {
                // a third consecutive newline is dropped
            } else {
                let ghost out_pre = out@;
                out.push(10);
                proof {
                    assert(out@.drop_last() =~= out_pre);
                    assert(visible_bytes(out@) == visible_bytes(out_pre));
                }
            }
        } else {
            if pending_space {
                let ghost out_pre = out@;
                out.push(32);
                proof {
                    assert(out@.drop_last() =~= out_pre);
                    assert(visible_bytes(out@) == visible_bytes(out_pre));
                }
                pending_space = false;
            }
            let ghost out_pre = out@;
            out.push(b);
            proof {
                assert(out@.drop_last() =~= out_pre);
                assert(visible_bytes(out@) == visible_bytes(out_pre).push(b));
            }
        }
        i += 1;
    }
    proof {
        assert(bytes@.take(bytes@.len() as int) =~= bytes@);
    }
    let r = string_from_ascii(out);
    proof {
        assert(bytes_of_ascii(r@) =~= out@);
    }
    r
}

/// The length of the prefix before the first occurrence of `delim`, or the
/// whole length when there is none.
pub open spec fn prefix_len_until(s: Seq<u8>, delim: u8) -> int
    decreases s.len(),
{
    if s.len() == 0 {
        0
    } else if s[0] == delim {
        0
    } else {
        1 + prefix_len_until(s.skip(1), delim)
    }
}

/// A position with no delimiter before it, holding the delimiter or the
/// end, is exactly the delimiter-prefix length.
proof fn lemma_prefix_len_is(s: Seq<u8>, delim: u8, k: int)
    requires
        0 <= k <= s.len(),
        forall|j: int| 0 <= j < k ==> s[j] != delim,
        k == s.len() || s[k] == delim,
    ensures
        prefix_len_until(s, delim) == k,
    decreases s.len(),
{
    if s.len() != 0 && s[0] != delim {
        assert forall|j: int| 0 <= j < k - 1 implies s.skip(1)[j] != delim by {
            assert(s.skip(1)[j] == s[j + 1]);
        }
        if k < s.len() {
            assert(s.skip(1)[k - 1] == s[k]);
        }
        lemma_prefix_len_is(s.skip(1), delim, k - 1);
    }
}

/// The declaration-kind rank of a line: the text before its first `;`
/// against the fixed kind order `point`, `colour`, `texture`, `material`,
/// `object`; lines of no known kind (comments, blanks) have no rank.
pub open spec fn spec_line_rank(line: Seq<u8>) -> Option<int> {
    let head = line.take(prefix_len_until(line, 59));
    if head == seq![112u8, 111u8, 105u8, 110u8, 116u8] {
        Some(0int)
    } else if head == seq![99u8, 111u8, 108u8, 111u8, 117u8, 114u8] {
        Some(1int)
    } else if head == seq![116u8, 101u8, 120u8, 116u8, 117u8, 114u8, 101u8] {
        Some(2int)
    } else if head == seq![109u8, 97u8, 116u8, 101u8, 114u8, 105u8, 97u8, 108u8] {
        Some(3int)
    } else if head == seq![111u8, 98u8, 106u8, 101u8, 99u8, 116u8] {
        Some(4int)
    } else {
        None
    }
}

fn line_rank(line: &Vec<u8>) -> (r: Option<usize>)
    ensures
        r is Some <==> spec_line_rank(line@) is Some,
        r is Some ==> r->0 == spec_line_rank(line@)->0 && r->0 < 5,
{
    let mut end: usize = 0;
    while end < line.len() && line[end] != 59
        invariant
            end <= line@.len(),
            forall|j: int| 0 <= j < end ==> line@[j] != 59,
        decreases line@.len() - end,
    {
        end += 1;
    }
    proof {
        lemma_prefix_len_is(line@, 59, end as int);
        assert(seq![112u8, 111u8, 105u8, 110u8, 116u8, 0u8, 0u8, 0u8].take(5)
            =~= seq![112u8, 111u8, 105u8, 110u8, 116u8]);
        assert(seq![99u8, 111u8, 108u8, 111u8, 117u8, 114u8, 0u8, 0u8].take(6)
            =~= seq![99u8, 111u8, 108u8, 111u8, 117u8, 114u8]);
        assert(seq![116u8, 101u8, 120u8, 116u8, 117u8, 114u8, 101u8, 0u8].take(7)
            =~= seq![116u8, 101u8, 120u8, 116u8, 117u8, 114u8, 101u8]);
        assert(seq![109u8, 97u8, 116u8, 101u8, 114u8, 105u8, 97u8, 108u8].take(8)
            =~= seq![109u8, 97u8, 116u8, 101u8, 114u8, 105u8, 97u8, 108u8]);
        assert(seq![111u8, 98u8, 106u8, 101u8, 99u8, 116u8, 0u8, 0u8].take(6)
            =~= seq![111u8, 98u8, 106u8, 101u8, 99u8, 116u8]);
    }
    if prefix_is(line, end, 112, 111, 105, 110, 116, 0, 0, 0, 5) {
        Some(0)
    } else if prefix_is(line, end, 99, 111, 108, 111, 117, 114, 0, 0, 6) {
        Some(1)
    } else if prefix_is(line, end, 116, 101, 120, 116, 117, 114, 101, 0, 7) {
        Some(2)
    } else if prefix_is(line, end, 109, 97, 116, 101, 114, 105, 97, 108, 8) {
        Some(3)
    } else if prefix_is(line, end, 111, 98, 106, 101, 99, 116, 0, 0, 6) {
        Some(4)
    } else {
        None
    }
}

/// Whether the first `end` bytes of the line spell the keyword given by
/// the first `n` of the bytes `a` through `h`.
#[verifier::rlimit(30)]
fn prefix_is(
    line: &Vec<u8>,
    end: usize,
    a: u8,
    b: u8,
    c: u8,
    d: u8,
    e: u8,
    f: u8,
    g: u8,
    h: u8,
    n: usize,
) -> (r: bool)
    requires
        end <= line@.len(),
        5 <= n <= 8,
    ensures
        r == (line@.take(end as int) == seq![a, b, c, d, e, f, g, h].take(n as int)),
{
    let ghost kw = seq![a, b, c, d, e, f, g, h].take(n as int);
    if end != n {
        proof {
            assert(line@.take(end as int).len() != kw.len());
        }
        return false;
    }
    let ok = line[0] == a && line[1] == b && line[2] == c && line[3] == d && line[4] == e
        && (n < 6 || line[5] == f) && (n < 7 || line[6] == g) && (n < 8 || line[7] == h);
    proof {
        if ok {
            assert(line@.take(end as int) =~= kw);
        } else {
            if line@.take(end as int) == kw {
                assert(line@.take(end as int)[0] == line@[0] && kw[0] == a);
                assert(line@.take(end as int)[1] == line@[1] && kw[1] == b);
                assert(line@.take(end as int)[2] == line@[2] && kw[2] == c);
                assert(line@.take(end as int)[3] == line@[3] && kw[3] == d);
                assert(line@.take(end as int)[4] == line@[4] && kw[4] == e);
                if n >= 6 {
                    assert(line@.take(end as int)[5] == line@[5] && kw[5] == f);
                }
                if n >= 7 {
                    assert(line@.take(end as int)[6] == line@[6] && kw[6] == g);
                }
                if n >= 8 {
                    assert(line@.take(end as int)[7] == line@[7] && kw[7] == h);
                }
                assert(false);
            }
        }
    }
    ok
}

/// Stable ordering of the typed declaration lines by kind rank: the typed
/// lines are rearranged into kind order among the positions they occupy,
/// while comment and unrecognised lines keep their own positions and text.
/// The line occurs (byte for byte) somewhere in the input.
pub open spec fn line_from(inp: Seq<Vec<u8>>, line: Seq<u8>) -> bool {
    exists|j: int| 0 <= j < inp.len() && line == #[trigger] inp[j]@
}

pub fn sort_if_comment(to_sort: Vec<Vec<u8>>) -> (r: Vec<Vec<u8>>)
    ensures
        r@.len() == to_sort@.len(),
        forall|i: int| 0 <= i < r@.len() && spec_line_rank(#[trigger] to_sort@[i]@) is None
            ==> r@[i]@ == to_sort@[i]@,
        forall|k: int| 0 <= k < r@.len() ==> line_from(to_sort@, #[trigger] r@[k]@),
{
    let mut sorted: Vec<Vec<u8>> = Vec::new();
    let mut rank: usize = 0;
    while rank < 5
        invariant
            rank <= 5,
            forall|q: int| 0 <= q < sorted@.len() ==> line_from(to_sort@, #[trigger] sorted@[q]@),
        decreases 5 - rank,
    {
        let mut i: usize = 0;
        while i < to_sort.len()
            invariant
                i <= to_sort@.len(),
                forall|q: int| 0 <= q < sorted@.len()
                    ==> line_from(to_sort@, #[trigger] sorted@[q]@),
            decreases to_sort@.len() - i,
        {
            match line_rank(&to_sort[i]) {
                Some(k) => {
                    if k == rank {
                        let ghost sorted_pre = sorted@;
                        sorted.push(clone_bytes(&to_sort[i]));
                        proof {
                            assert(sorted@[sorted@.len() - 1]@ == to_sort@[i as int]@);
                            assert(line_from(to_sort@, sorted@[sorted@.len() - 1]@));
                        }
                    }
                },
                None => {},
            }
            i += 1;
        }
        rank += 1;
    }
    let mut out: Vec<Vec<u8>> = Vec::new();
    let mut next: usize = 0;
    let mut i: usize = 0;
    while i < to_sort.len()
        invariant
            i <= to_sort@.len(),
            out@.len() == i,
            forall|j: int| 0 <= j < i && spec_line_rank(#[trigger] to_sort@[j]@) is None
                ==> out@[j]@ == to_sort@[j]@,
            forall|q: int| 0 <= q < sorted@.len()
                ==> line_from(to_sort@, #[trigger] sorted@[q]@),
            forall|k: int| 0 <= k < out@.len() ==> line_from(to_sort@, #[trigger] out@[k]@),
        decreases to_sort@.len() - i,
    {
        let typed = line_rank(&to_sort[i]).is_some();
        if typed && next < sorted.len() {
            out.push(clone_bytes(&sorted[next]));
            proof {
                assert(out@[out@.len() - 1]@ == sorted@[next as int]@);
                assert(line_from(to_sort@, out@[out@.len() - 1]@));
            }
            next += 1;
        } else {
            out.push(clone_bytes(&to_sort[i]));
            proof {
                assert(out@[out@.len() - 1]@ == to_sort@[i as int]@);
                assert(line_from(to_sort@, out@[out@.len() - 1]@));
            }
        }
        i += 1;
    }
    out
}

fn clone_bytes(v: &Vec<u8>) -> (r: Vec<u8>)
    ensures
        r@ == v@,
{
    let mut out: Vec<u8> = Vec::new();
    let mut i: usize = 0;
    while i < v.len()
        invariant
            i <= v@.len(),
            out@ == v@.take(i as int),
        decreases v@.len() - i,
    {
        out.push(v[i]);
        proof {
            assert(out@ =~= v@.take(i + 1));
        }
        i += 1;
    }
    proof {
        assert(v@.take(v@.len() as int) =~= v@);
    }
    out
}

/// Split into lines at newline bytes; a trailing newline yields no final
/// empty line.
fn split_lines(bytes: &Vec<u8>) -> (r: Vec<Vec<u8>>)
    requires
        ascii_bytes(bytes@),
    ensures
        forall|i: int| 0 <= i < r@.len() ==> ascii_bytes(#[trigger] r@[i]@),
{
    let mut out: Vec<Vec<u8>> = Vec::new();
    let mut current: Vec<u8> = Vec::new();
    let mut i: usize = 0;
    while i < bytes.len()
        invariant
            i <= bytes@.len(),
            ascii_bytes(bytes@),
            ascii_bytes(current@),
            forall|j: int| 0 <= j < out@.len() ==> ascii_bytes(#[trigger] out@[j]@),
        decreases bytes@.len() - i,
    {
        let b = bytes[i];
        if b == 10 {
            out.push(current);
            current = Vec::new();
        } else {
            current.push(b);
        }
        i += 1;
    }
    if current.len() > 0 {
        out.push(current);
    }
    out
}

/// Reassemble the scene: the first two lines (camera, then sky colours)
/// stay first and verbatim, separated from the kind-ordered remainder by a
/// blank line. Among the remaining lines, declaration lines are rearranged
/// into kind order while unrecognised lines keep their positions
/// (`sort_if_comment`); no line is invented. Text without a second line is
/// returned unchanged.
pub fn order_lines(scene: String) -> (r: String)
    requires
        scene.is_ascii(),
    ensures
        r.is_ascii(),
        ({
            let src = bytes_of_ascii(scene@);
            let n1 = prefix_len_until(src, 10);
            let tail = src.skip(n1 + 1);
            let n2 = prefix_len_until(tail, 10);
            n1 + 1 < src.len() ==> bytes_of_ascii(r@).take(n1 + 1 + n2 + 2)
                == src.take(n1) + seq![10u8] + tail.take(n2) + seq![10u8, 10u8]
        }),
{
    proof {
        broadcast use is_ascii_spec_bytes;
    }
    let bytes = ascii_bytes_of(&scene);
    let ghost src = bytes@;
    // end of the first line
    let mut n1: usize = 0;
    while n1 < bytes.len() && bytes[n1] != 10
        invariant
            n1 <= bytes@.len(),
            forall|j: int| 0 <= j < n1 ==> bytes@[j] != 10,
        decreases bytes@.len() - n1,
    {
        n1 += 1;
    }
    proof {
        lemma_prefix_len_is(src, 10, n1 as int);
    }
    if n1 >= bytes.len() {
        return scene;
    }
    if n1 + 1 >= bytes.len() {
        return scene;
    }
    let ghost tail = src.skip(n1 + 1);
    // end of the second line
    let mut m: usize = n1 + 1;
    while m < bytes.len() && bytes[m] != 10
        invariant
            n1 + 1 <= m <= bytes@.len(),
            n1 < bytes@.len(),
            forall|j: int| n1 + 1 <= j < m ==> bytes@[j] != 10,
        decreases bytes@.len() - m,
    {
        m += 1;
    }
    let ghost n2 = m - n1 - 1;
    proof {
        assert forall|j: int| 0 <= j < n2 implies tail[j] != 10 by {
            assert(tail[j] == src[n1 + 1 + j]);
        }
        if m < src.len() {
            assert(tail[n2] == src[m as int]);
        }
        lemma_prefix_len_is(tail, 10, n2);
    }
    // everything after the second line
    let mut remainder: Vec<u8> = Vec::new();
    if m < bytes.len() {
        let mut p: usize = m + 1;
        while p < bytes.len()
            invariant
                m + 1 <= p <= bytes@.len(),
                ascii_bytes(bytes@),
                ascii_bytes(remainder@),
            decreases bytes@.len() - p,
        {
            remainder.push(bytes[p]);
            p += 1;
        }
    }
    let lines = split_lines(&remainder);
    let sorted = sort_if_comment(lines);
    // assemble: verbatim header first
    let mut out: Vec<u8> = Vec::new();
    proof {
        assert(out@ =~= src.take(0));
    }
    let mut q: usize = 0;
    while q < n1
        invariant
            q <= n1 <= bytes@.len(),
            src == bytes@,
            ascii_bytes(bytes@),
            out@ == src.take(q as int),
        decreases n1 - q,
    {
        out.push(bytes[q]);
        proof {
            assert(out@ =~= src.take(q + 1));
        }
        q += 1;
    }
    out.push(10);
    proof {
        assert(out@ =~= src.take(n1 as int) + seq![10u8] + tail.take(0));
    }
    let mut q2: usize = n1 + 1;
    while q2 < m
        invariant
            n1 + 1 <= q2 <= m <= bytes@.len(),
            n1 < bytes@.len(),
            src == bytes@,
            ascii_bytes(bytes@),
            tail == src.skip(n1 + 1),
            out@ == src.take(n1 as int) + seq![10u8] + tail.take(q2 - n1 - 1),
        decreases m - q2,
    {
        out.push(bytes[q2]);
        proof {
            assert(tail[q2 - n1 - 1] == src[q2 as int]);
            assert(out@ =~= src.take(n1 as int) + seq![10u8] + tail.take(q2 - n1));
        }
        q2 += 1;
    }
    out.push(10);
    out.push(10);
    let ghost header = src.take(n1 as int) + seq![10u8] + tail.take(n2) + seq![10u8, 10u8];
    proof {
        assert(out@ =~= header);
    }
    // the ordered remainder follows; the header prefix stays put
    let mut k: usize = 0;
    while k < sorted.len()
        invariant
            k <= sorted@.len(),
            ascii_bytes(out@),
            out@.len() >= header.len(),
            out@.take(header.len() as int) == header,
        decreases sorted@.len() - k,
    {
        let ghost out_pre = out@;
        append_ascii_checked(&mut out, &sorted[k]);
        out.push(10);
        proof {
            assert(out@.take(header.len() as int) =~= out_pre.take(header.len() as int));
        }
        k += 1;
    }
    let r = string_from_ascii(out);
    proof {
        assert(bytes_of_ascii(r@) =~= out@);
        assert(bytes_of_ascii(r@).take(header.len() as int) =~= header);
    }
    r
}

/// Append a piece, skipping any non-ASCII byte so the output stays ASCII;
/// what was already present stays put.
fn append_ascii_checked(out: &mut Vec<u8>, piece: &Vec<u8>)
    requires
        ascii_bytes(old(out)@),
    ensures
        ascii_bytes(final(out)@),
        final(out)@.len() >= old(out)@.len(),
        final(out)@.take(old(out)@.len() as int) == old(out)@,
{
    let ghost base = out@;
    proof {
        assert(out@.take(base.len() as int) =~= base);
    }
    let mut i: usize = 0;
    while i < piece.len()
        invariant
            i <= piece@.len(),
            ascii_bytes(out@),
            out@.len() >= base.len(),
            out@.take(base.len() as int) == base,
        decreases piece@.len() - i,
    {
        let b = piece[i];
        if b < 128 {
            let ghost out_pre = out@;
            out.push(b);
            proof {
                assert(out@.take(base.len() as int) =~= out_pre.take(base.len() as int));
            }
        }
        i += 1;
    }
}

/// The full cleanup pipeline: lower-case, order the declaration lines,
/// space out punctuation, then normalise whitespace.
pub fn clean_scene(scene: String) -> (r: String)
    requires
        scene.is_ascii(),
    ensures
        r.is_ascii(),
        whitespace_clean(bytes_of_ascii(r@)),
{
    clean_whitespace(split_punctuation(order_lines(lowercase(scene))))
}

} // verus!
