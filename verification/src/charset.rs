use vstd::prelude::*;

use crate::text::{dec_val, parse_u32_token, parses_u32};

verus! {

/// A range of Unicode codepoints taken from one token of a charset
/// specification. A well-formed range has `start <= end`; the expansion
/// step interprets it as the half-open interval `[start, end)`.
#[derive(Clone, Copy, PartialEq, Eq, Structural, Debug)]
pub struct CodepointRange {
    pub start: u32,
    pub end: u32,
}

/// Why a charset specification was rejected, carrying the offending text.
/// `Format` is a token with more than one dash; `Parse` is a numeric field
/// that is empty, non-numeric or too large.
#[derive(Debug)]
pub enum CharsetError {
    Format(String),
    Parse(String),
}

impl CharsetError {
    /// Human-readable description of the failure.
    pub fn message(&self) -> String {
        match self {
            CharsetError::Format(_) => String::from_str(
                "Some set in the font's specified charset has more than one '-' which makes no sense",
            ),
            CharsetError::Parse(_) => String::from_str("Invalid number in charset"),
        }
    }
}

/// Splits a character sequence on a separator. `n` separators give `n + 1`
/// fields, so an empty input yields one empty field.
pub open spec fn split_on(s: Seq<char>, sep: char) -> Seq<Seq<char>>
    decreases s.len(),
{
    if s.len() == 0 {
        seq![Seq::<char>::empty()]
    } else if s[0] == sep {
        seq![Seq::<char>::empty()] + split_on(s.skip(1), sep)
    } else {
        let rest = split_on(s.skip(1), sep);
        seq![seq![s[0]] + rest[0]] + rest.skip(1)
    }
}

pub proof fn lemma_split_on_len(s: Seq<char>, sep: char)
    ensures
        split_on(s, sep).len() >= 1,
    decreases s.len(),
{
    if s.len() != 0 {
        lemma_split_on_len(s.skip(1), sep);
    }
}

/// If the first `i` characters hold no separator, the split starts with that
/// prefix as its first field: either the whole input (no separator at all)
/// or the text before the first separator.
proof fn lemma_split_at_first_sep(s: Seq<char>, sep: char, i: int)
    requires
        0 <= i <= s.len(),
        forall|j: int| 0 <= j < i ==> s[j] != sep,
        i < s.len() ==> s[i] == sep,
    ensures
        i == s.len() ==> split_on(s, sep) =~= seq![s],
        i < s.len() ==> split_on(s, sep) =~= seq![s.take(i)] + split_on(s.skip(i + 1), sep),
    decreases i,
{
    lemma_split_on_len(s, sep);
    if i == 0 {
        if i < s.len() {
            assert(s.take(0) =~= Seq::<char>::empty());
            assert(s.skip(1) =~= s.skip(i + 1));
        } else {
            assert(s =~= Seq::<char>::empty());
        }
    } else {
        let t = s.skip(1);
        lemma_split_at_first_sep(t, sep, i - 1);
        lemma_split_on_len(t, sep);
        let rest = split_on(t, sep);
        if i == s.len() {
            assert(rest =~= seq![t]);
            assert(seq![s[0]] + t =~= s);
            assert(split_on(s, sep) =~= seq![s]);
        } else {
            assert(rest =~= seq![t.take(i - 1)] + split_on(t.skip(i), sep));
            assert(seq![s[0]] + t.take(i - 1) =~= s.take(i));
            assert(t.skip(i) =~= s.skip(i + 1));
            assert(rest.skip(1) =~= split_on(s.skip(i + 1), sep));
            assert(split_on(s, sep) =~= seq![s.take(i)] + split_on(s.skip(i + 1), sep));
        }
    }
}

/// A token is well formed when it has at most one dash and each of its
/// numeric fields parses as a `u32`.
pub open spec fn token_valid(t: Seq<char>) -> bool {
    let parts = split_on(t, '-');
    if parts.len() > 2 {
        false
    } else if parts.len() == 1 {
        parses_u32(parts[0])
    } else {
        parses_u32(parts[0]) && parses_u32(parts[1])
    }
}

/// The range a well-formed token denotes: a single codepoint, or the pair
/// around its dash.
pub open spec fn token_range(t: Seq<char>) -> CodepointRange {
    let parts = split_on(t, '-');
    if parts.len() == 1 {
        CodepointRange { start: dec_val(parts[0]) as u32, end: dec_val(parts[0]) as u32 }
    } else {
        CodepointRange { start: dec_val(parts[0]) as u32, end: dec_val(parts[1]) as u32 }
    }
}

/// The error an invalid token produces: a dash-count failure names the whole
/// token; otherwise the first field that fails to parse is named, fields
/// checked left to right.
pub open spec fn token_error_matches(t: Seq<char>, e: CharsetError) -> bool {
    let parts = split_on(t, '-');
    if parts.len() > 2 {
        e matches CharsetError::Format(tok) && tok@ == t
    } else if parts.len() == 1 {
        e matches CharsetError::Parse(f) && f@ == parts[0]
    } else if !parses_u32(parts[0]) {
        e matches CharsetError::Parse(f) && f@ == parts[0]
    } else {
        e matches CharsetError::Parse(f) && f@ == parts[1]
    }
}

/// All comma-separated tokens of a specification are well formed.
pub open spec fn charset_valid(spec: Seq<char>) -> bool {
    let toks = split_on(spec, ',');
    forall|k: int| 0 <= k < toks.len() ==> token_valid(#[trigger] toks[k])
}

/// The ranges a valid specification denotes, token by token.
pub open spec fn charset_ranges(spec: Seq<char>) -> Seq<CodepointRange> {
    split_on(spec, ',').map_values(|t: Seq<char>| token_range(t))
}

/// Finds the next occurrence of `sep` at or after `from`, or the length.
fn find_from(s: &str, len: usize, from: usize, sep: char) -> (r: usize)
    requires
        len == s@.len(),
        0 <= from <= len,
    ensures
        from <= r <= len,
        forall|j: int| from <= j < r ==> s@[j] != sep,
        r < len ==> s@[r as int] == sep,
{
    let mut j = from;
    while j < len
        invariant
            from <= j <= len,
            len == s@.len(),
            forall|k: int| from <= k < j ==> s@[k] != sep,
        decreases len - j,
    {
        if s.get_char(j) == sep {
            return j;
        }
        j = j + 1;
    }
    j
}

/// Splits a charset specification on commas and turns each token into a
/// `CodepointRange`: a bare numeral `n` gives `[n, n]`, `a-b` gives `[a, b]`,
/// and a token with more than one dash is a format error. Numeric fields
/// that do not parse as `u32` are parse errors; tokens are checked left to
/// right and the first failure is reported.
pub fn parse_charset(spec: &str) -> (r: Result<Vec<CodepointRange>, CharsetError>)
    ensures
        match r {
            Ok(v) => charset_valid(spec@) && v@ =~= charset_ranges(spec@),
            Err(e) => {
                let toks = split_on(spec@, ',');
                exists|k: int|
                    0 <= k < toks.len() && !token_valid(#[trigger] toks[k]) && (forall|j: int|
                        0 <= j < k ==> token_valid(#[trigger] toks[j])) && token_error_matches(
                        toks[k],
                        e,
                    )
            },
        },
{
    let len = spec.unicode_len();
    let ghost toks = split_on(spec@, ',');
    let mut out: Vec<CodepointRange> = Vec::new();
    let mut pos: usize = 0;
    let ghost k: int = 0;
    proof {
        lemma_split_on_len(spec@, ',');
        assert(spec@.skip(0) =~= spec@);
    }
    loop
        invariant_except_break
            0 <= pos <= len,
            len == spec@.len(),
            0 <= k < toks.len(),
            toks == split_on(spec@, ','),
            out@.len() == k,
            forall|j: int| 0 <= j < k ==> token_valid(#[trigger] toks[j]),
            forall|j: int| 0 <= j < k ==> out@[j] == token_range(#[trigger] toks[j]),
            split_on(spec@.skip(pos as int), ',') =~= toks.skip(k),
        ensures
            charset_valid(spec@) && out@ =~= charset_ranges(spec@),
        decreases len - pos,
    {
        let j = find_from(spec, len, pos, ',');
        let token = spec.substring_char(pos, j);
        let ghost tail = spec@.skip(pos as int);
        proof {
            assert(token@ =~= tail.take(j - pos)) by {
                assert(token@ =~= spec@.subrange(pos as int, j as int));
            }
            assert(forall|i: int| 0 <= i < j - pos ==> tail[i] != ',');
            assert(j < len ==> tail[j - pos] == ',');
            lemma_split_at_first_sep(tail, ',', j - pos);
            if j < len {
                assert(tail.skip(j - pos + 1) =~= spec@.skip(j + 1));
                assert(split_on(tail, ',') =~= seq![token@] + split_on(spec@.skip(j + 1), ','));
            } else {
                assert(split_on(tail, ',') =~= seq![token@]);
            }
            assert(toks.skip(k)[0] == toks[k]);
            assert(toks[k] == token@);
        }
        let range = match parse_token(token) {
            Ok(range) => range,
            Err(e) => {
                proof {
                    assert(!token_valid(toks[k]) && token_error_matches(toks[k], e));
                }
                return Err(e);
            },
        };
        out.push(range);
        proof {
            k = k + 1;
        }
        if j == len {
            proof {
                assert(toks.skip(k - 1) =~= seq![token@]);
                assert(k == toks.len());
                assert(charset_ranges(spec@).len() == toks.len());
                assert forall|j2: int| 0 <= j2 < toks.len() implies out@[j2] == charset_ranges(
                    spec@,
                )[j2] by {
                    assert(charset_ranges(spec@)[j2] == token_range(toks[j2]));
                }
            }
            break;
        }
        proof {
            assert(split_on(spec@.skip(j + 1), ',') =~= toks.skip(k - 1).skip(1));
            assert(toks.skip(k - 1).skip(1) =~= toks.skip(k));
        }
        pos = j + 1;
    }
    Ok(out)
}

/// Parses one token of a charset specification into its range.
fn parse_token(token: &str) -> (r: Result<CodepointRange, CharsetError>)
    ensures
        match r {
            Ok(range) => token_valid(token@) && range == token_range(token@),
            Err(e) => !token_valid(token@) && token_error_matches(token@, e),
        },
{
    let len = token.unicode_len();
    let d1 = find_from(token, len, 0, '-');
    let ghost parts = split_on(token@, '-');
    proof {
        lemma_split_at_first_sep(token@, '-', d1 as int);
        lemma_split_on_len(token@, '-');
        assert(token@.take(len as int) =~= token@);
    }
    if d1 == len {
        // no dash: one field, the token itself
        proof {
            assert(parts =~= seq![token@]);
        }
        match parse_u32_token(token) {
            Some(n) => Ok(CodepointRange { start: n, end: n }),
            None => Err(CharsetError::Parse(String::from_str(token))),
        }
    } else {
        let ghost tail = token@.skip(d1 + 1);
        let d2 = find_from(token, len, d1 + 1, '-');
        proof {
            lemma_split_at_first_sep(tail, '-', d2 - d1 - 1);
            lemma_split_on_len(tail, '-');
        }
        if d2 < len {
            proof {
                assert(split_on(tail, '-').len() >= 2);
                assert(parts.len() >= 3);
            }
            return Err(CharsetError::Format(String::from_str(token)));
        }
        proof {
            assert(tail.take(d2 - d1 - 1) =~= tail);
            assert(split_on(tail, '-') =~= seq![tail]);
            assert(parts =~= seq![token@.take(d1 as int), tail]);
        }
        let first = token.substring_char(0, d1);
        let second = token.substring_char(d1 + 1, len);
        proof {
            assert(first@ =~= token@.take(d1 as int));
            assert(second@ =~= tail);
        }
        let start = match parse_u32_token(first) {
            Some(n) => n,
            None => {
                return Err(CharsetError::Parse(String::from_str(first)));
            },
        };
        let end = match parse_u32_token(second) {
            Some(n) => n,
            None => {
                return Err(CharsetError::Parse(String::from_str(second)));
            },
        };
        Ok(CodepointRange { start, end })
    }
}

/// The codepoints of one range, expanded over the half-open interval
/// `[start, end)`: the end value itself is excluded.
pub open spec fn range_codepoints(r: CodepointRange) -> Seq<u32> {
    if r.start <= r.end {
        Seq::new((r.end - r.start) as nat, |i: int| (r.start + i) as u32)
    } else {
        Seq::<u32>::empty()
    }
}

/// The codepoints of a list of ranges, in order.
pub open spec fn expanded(ranges: Seq<CodepointRange>) -> Seq<u32>
    decreases ranges.len(),
{
    if ranges.len() == 0 {
        Seq::<u32>::empty()
    } else {
        expanded(ranges.drop_last()) + range_codepoints(ranges.last())
    }
}

/// Expands every range over its half-open interval `[start, end)`,
/// concatenated in the order the ranges were given.
pub fn expand_ranges(ranges: &Vec<CodepointRange>) -> (r: Vec<u32>)
    ensures
        r@ =~= expanded(ranges@),
{
    let mut out: Vec<u32> = Vec::new();
    let mut i: usize = 0;
    while i < ranges.len()
        invariant
            0 <= i <= ranges@.len(),
            out@ =~= expanded(ranges@.take(i as int)),
        decreases ranges@.len() - i,
    {
        let range = ranges[i];
        if range.start <= range.end {
            let mut c = range.start;
            while c < range.end
                invariant
                    range.start <= c <= range.end,
                    out@ =~= expanded(ranges@.take(i as int)) + range_codepoints(range).take(
                        c - range.start,
                    ),
                decreases range.end - c,
            {
                out.push(c);
                proof {
                    assert(range_codepoints(range).take(c - range.start + 1) =~= range_codepoints(
                        range,
                    ).take(c - range.start).push(c as u32));
                }
                c = c + 1;
            }
            proof {
                assert(range_codepoints(range).take(range.end - range.start) =~= range_codepoints(
                    range,
                ));
            }
        }
        proof {
            assert(ranges@.take(i + 1).drop_last() =~= ranges@.take(i as int));
            assert(ranges@.take(i + 1).last() == ranges@[i as int]);
            assert(expanded(ranges@.take(i + 1)) =~= expanded(ranges@.take(i as int))
                + range_codepoints(ranges@[i as int]));
        }
        i = i + 1;
    }
    proof {
        assert(ranges@.take(ranges@.len() as int) =~= ranges@);
    }
    out
}

/// A codepoint appears in the expansion exactly when some range holds it in
/// its half-open interval: `start <= c < end`. In particular each range's
/// end value is left out.
pub proof fn lemma_expanded_membership(ranges: Seq<CodepointRange>, c: u32)
    ensures
        expanded(ranges).contains(c) <==> exists|i: int|
            0 <= i < ranges.len() && (#[trigger] ranges[i]).start <= c < ranges[i].end,
    decreases ranges.len(),
{
    if ranges.len() > 0 {
        let pre = ranges.drop_last();
        lemma_expanded_membership(pre, c);
        let last = ranges.last();
        if exists|i: int| 0 <= i < ranges.len() && (#[trigger] ranges[i]).start <= c < ranges[i].end {
            let i = choose|i: int|
                0 <= i < ranges.len() && (#[trigger] ranges[i]).start <= c < ranges[i].end;
            if i == ranges.len() - 1 {
                assert(range_codepoints(last)[c - last.start] == c);
                let idx = expanded(pre).len() + c - last.start;
                assert(expanded(ranges)[idx] == c);
            } else {
                assert((pre[i]).start <= c < pre[i].end);
                assert(expanded(pre).contains(c));
                let j = choose|j: int| 0 <= j < expanded(pre).len() && expanded(pre)[j] == c;
                assert(expanded(ranges)[j] == c);
            }
            assert(expanded(ranges).contains(c));
        }
        if expanded(ranges).contains(c) {
            let j = choose|j: int| 0 <= j < expanded(ranges).len() && expanded(ranges)[j] == c;
            if j < expanded(pre).len() {
                assert(expanded(pre)[j] == c);
                assert(expanded(pre).contains(c));
                let i = choose|i: int|
                    0 <= i < pre.len() && (#[trigger] pre[i]).start <= c < pre[i].end;
                assert((ranges[i]).start <= c < ranges[i].end);
            } else {
                assert(range_codepoints(last)[j - expanded(pre).len()] == c);
                assert((ranges[ranges.len() - 1]).start <= c < ranges[ranges.len() - 1].end);
            }
        }
    }
}

/// Every codepoint of the expansion lies below the largest range end.
pub proof fn lemma_expanded_bounds(ranges: Seq<CodepointRange>, bound: u32)
    requires
        forall|i: int| 0 <= i < ranges.len() ==> (#[trigger] ranges[i]).end <= bound,
    ensures
        forall|j: int| 0 <= j < expanded(ranges).len() ==> #[trigger] expanded(ranges)[j] < bound,
    decreases ranges.len(),
{
    if ranges.len() > 0 {
        lemma_expanded_bounds(ranges.drop_last(), bound);
        assert forall|j: int| 0 <= j < expanded(ranges).len() implies #[trigger] expanded(
            ranges,
        )[j] < bound by {
            let pre = expanded(ranges.drop_last());
            if j >= pre.len() {
                assert(expanded(ranges)[j] == range_codepoints(ranges.last())[j - pre.len()]);
            }
        }
    }
}


/// With each range ending no later than the next starts, and every range
/// well formed, no range ends later than the last one.
proof fn lemma_sorted_range_ends(ranges: Seq<CodepointRange>)
    requires
        ranges.len() > 0,
        forall|i: int| 0 <= i < ranges.len() ==> (#[trigger] ranges[i]).start <= ranges[i].end,
        forall|i: int|
            0 <= i < ranges.len() - 1 ==> (#[trigger] ranges[i]).end <= ranges[i + 1].start,
    ensures
        forall|i: int| 0 <= i < ranges.len() ==> (#[trigger] ranges[i]).end <= ranges.last().end,
    decreases ranges.len(),
{
    if ranges.len() > 1 {
        lemma_sorted_range_ends(ranges.drop_last());
        assert forall|i: int| 0 <= i < ranges.len() implies (#[trigger] ranges[i]).end
            <= ranges.last().end by {
            if i < ranges.len() - 1 {
                assert(ranges.drop_last()[i] == ranges[i]);
                assert(ranges.drop_last().last() == ranges[ranges.len() - 2]);
                assert(ranges[ranges.len() - 2].end <= ranges[ranges.len() - 1].start);
            }
        }
    }
}

/// When the ranges are well formed and given in order, with each range
/// ending no later than the next one starts, the expanded codepoints are
/// strictly increasing, so the expansion holds no duplicates.
#[verifier::rlimit(50)]
pub proof fn lemma_expanded_strictly_increasing(ranges: Seq<CodepointRange>)
    requires
        forall|i: int| 0 <= i < ranges.len() ==> (#[trigger] ranges[i]).start <= ranges[i].end,
        forall|i: int|
            0 <= i < ranges.len() - 1 ==> (#[trigger] ranges[i]).end <= ranges[i + 1].start,
    ensures
        forall|p: int, q: int|
            0 <= p < q < expanded(ranges).len() ==> expanded(ranges)[p] < expanded(ranges)[q],
    decreases ranges.len(),
{
    if ranges.len() > 0 {
        let pre = ranges.drop_last();
        let last = ranges.last();
        lemma_expanded_strictly_increasing(pre);
        if pre.len() > 0 {
            lemma_sorted_range_ends(pre);
            lemma_expanded_bounds(pre, pre.last().end);
        }
        assert forall|p: int, q: int|
            0 <= p < q < expanded(ranges).len() implies expanded(ranges)[p] < expanded(
            ranges,
        )[q] by {
            let e = expanded(ranges);
            let ep = expanded(pre);
            let rc = range_codepoints(last);
            if q < ep.len() {
                assert(e[p] == ep[p]);
                assert(e[q] == ep[q]);
            } else if p >= ep.len() {
                assert(e[p] == rc[p - ep.len()]);
                assert(e[q] == rc[q - ep.len()]);
            } else {
                assert(e[p] == ep[p]);
                assert(e[q] == rc[q - ep.len()]);
                assert(ep[p] < pre.last().end);
                assert(pre.last().end <= last.start) by {
                    assert(pre.last() == ranges[ranges.len() - 2]);
                }
            }
        }
    }
}

} // verus!
