//! What an MP4 render asks of ffmpeg and what it reads back: the filter
//! graph that trims every kept range out of the source and concatenates
//! the pieces in order, and the `key=value` lines of its `-progress`
//! stream.

use vstd::prelude::*;
use crate::text::{concat, decimal, digit_char, trim, trim_spec, u64_to_decimal};

verus! {

/// What one line of the progress stream says.
#[derive(Debug, Clone, Copy, PartialEq, Eq)]
pub enum ProgressLine {
    /// How far the output has got, in microseconds.
    OutTime(u64),
    /// The render is over.
    End,
    /// Anything else, including a time that does not read as a number.
    Other,
}

pub open spec fn is_digit(c: char) -> bool {
    '0' <= c && c <= '9'
}

/// The value of a run of decimal digits.
pub open spec fn digits_value(s: Seq<char>) -> nat
    decreases s.len(),
{
    if s.len() == 0 {
        0
    } else {
        digits_value(s.drop_last()) * 10 + ((s.last() as int - '0' as int) as nat)
    }
}

/// `str::parse::<u64>`: an optional `+`, then at least one decimal digit
/// and nothing else, with a value that fits in 64 bits.
pub open spec fn parse_u64_spec(s: Seq<char>) -> Option<nat> {
    let body = unsigned_body(s);
    if body.len() > 0 && all_digits(body) && digits_value(body) <= u64::MAX {
        Some(digits_value(body))
    } else {
        None
    }
}

/// The digits of an unsigned number: the text after a leading `+`.
pub open spec fn unsigned_body(s: Seq<char>) -> Seq<char> {
    if s.len() > 0 && s[0] == '+' {
        s.drop_first()
    } else {
        s
    }
}

pub open spec fn all_digits(s: Seq<char>) -> bool {
    forall|i: int| 0 <= i < s.len() ==> is_digit(#[trigger] s[i])
}

/// `s` without `prefix`, when it starts with it.
pub open spec fn strip_prefix_spec(s: Seq<char>, prefix: Seq<char>) -> Option<Seq<char>> {
    if s.len() >= prefix.len() && s.take(prefix.len() as int) == prefix {
        Some(s.skip(prefix.len() as int))
    } else {
        None
    }
}

/// A progress line, read after trimming: `out_time_us=<n>` (or the older
/// `out_time_ms=<n>`, which also counts microseconds) gives the time,
/// `progress=end` the end.
pub open spec fn progress_line_spec(line: Seq<char>) -> ProgressLine {
    let t = trim_spec(line);
    match strip_prefix_spec(t, "out_time_us="@) {
        Some(v) => match parse_u64_spec(v) {
            Some(n) => ProgressLine::OutTime(n as u64),
            None => ProgressLine::Other,
        },
        None => match strip_prefix_spec(t, "out_time_ms="@) {
            Some(v) => match parse_u64_spec(v) {
                Some(n) => ProgressLine::OutTime(n as u64),
                None => ProgressLine::Other,
            },
            None => if t == "progress=end"@ {
                ProgressLine::End
            } else {
                ProgressLine::Other
            },
        },
    }
}

proof fn lemma_digits_value_grows(s: Seq<char>, k: int)
    requires
        0 <= k <= s.len(),
    ensures
        digits_value(s.take(k)) <= digits_value(s),
    decreases s.len() - k,
{
    if k < s.len() {
        lemma_digits_value_grows(s.drop_last(), k);
        assert(s.drop_last().take(k) =~= s.take(k));
    } else {
        assert(s.take(k) =~= s);
    }
}

proof fn lemma_strip_prefix_whole(s: Seq<char>, p: Seq<char>)
    ensures
        (s == p) <==> (strip_prefix_spec(s, p) matches Some(rest) && rest.len() == 0),
{
    if s == p {
        assert(s.take(p.len() as int) =~= p);
        assert(s.skip(p.len() as int) =~= Seq::<char>::empty());
    }
    if strip_prefix_spec(s, p) matches Some(rest) && rest.len() == 0 {
        assert(s =~= s.take(p.len() as int) + s.skip(p.len() as int));
    }
}

fn strip_prefix(s: &str, prefix: &str) -> (r: Option<String>)
    ensures
        r matches Some(x) ==> strip_prefix_spec(s@, prefix@) == Some(x@),
        r is None ==> strip_prefix_spec(s@, prefix@) is None,
{
    let n = s.unicode_len();
    let k = prefix.unicode_len();
    if k > n {
        return None;
    }
    let mut i: usize = 0;
    while i < k
        invariant
            i <= k,
            k <= n,
            n == s@.len(),
            k == prefix@.len(),
            forall|j: int| 0 <= j < i ==> s@[j] == prefix@[j],
        decreases k - i,
    {
        if s.get_char(i) != prefix.get_char(i) {
            assert(s@.take(k as int)[i as int] != prefix@[i as int]);
            return None;
        }
        i = i + 1;
    }
    assert(s@.take(k as int) =~= prefix@);
    let rest = s.substring_char(k, n).to_owned();
    assert(rest@ =~= s@.skip(k as int));
    Some(rest)
}

/// `str::parse::<u64>`.
pub fn parse_u64(s: &str) -> (r: Option<u64>)
    ensures
        r matches Some(n) ==> parse_u64_spec(s@) == Some(n as nat),
        r is None ==> parse_u64_spec(s@) is None,
{
    let n = s.unicode_len();
    let start: usize = if n > 0 && s.get_char(0) == '+' {
        1
    } else {
        0
    };
    let ghost body = unsigned_body(s@);
    assert(body =~= s@.skip(start as int));
    if start == n {
        return None;
    }
    let mut acc: u64 = 0;
    let mut i: usize = start;
    while i < n
        invariant
            start <= i <= n,
            n == s@.len(),
            start < n,
            body == s@.skip(start as int),
            body == unsigned_body(s@),
            forall|j: int| 0 <= j < i - start ==> is_digit(#[trigger] body[j]),
            acc as nat == digits_value(body.take(i - start)),
        decreases n - i,
    {
        let c = s.get_char(i);
        assert(body[i - start] == c);
        if !('0' <= c && c <= '9') {
            assert(!is_digit(body[i - start]));
            return None;
        }
        let d: u64 = (c as u32 - '0' as u32) as u64;
        proof {
            let t = body.take(i - start + 1);
            assert(t.drop_last() =~= body.take(i - start));
            assert(t.last() == c);
        }
        if acc > (u64::MAX - d) / 10 {
            proof {
                lemma_digits_value_grows(body, i - start + 1);
                assert(acc * 10 + d > u64::MAX) by (nonlinear_arith)
                    requires
                        acc > (u64::MAX - d) / 10,
                        d <= 9,
                ;
            }
            return None;
        }
        acc = acc * 10 + d;
        i = i + 1;
    }
    assert(body.take(n - start) =~= body);
    Some(acc)
}

proof fn lemma_decimal_digits(n: nat)
    ensures
        all_digits(decimal(n)),
        digits_value(decimal(n)) == n,
        decimal(n).len() > 0,
    decreases n,
{
    assert('0' as int == 48);
    if n < 10 {
        assert(digit_char(n as int) as int == n + 48);
        let s = decimal(n);
        assert(s.drop_last() =~= Seq::<char>::empty());
        assert(digits_value(s.drop_last()) == 0);
        assert(digits_value(s) == digits_value(s.drop_last()) * 10 + ((s.last() as int - '0' as int) as nat));
    } else {
        lemma_decimal_digits(n / 10);
        let d = decimal(n / 10);
        let s = d.push(digit_char((n % 10) as int));
        assert(digit_char((n % 10) as int) as int == n % 10 + 48);
        assert(s.drop_last() =~= d);
        assert((n / 10) * 10 + n % 10 == n);
        assert(digits_value(s) == digits_value(s.drop_last()) * 10 + ((s.last() as int - '0' as int) as nat));
        assert forall|i: int| 0 <= i < s.len() implies is_digit(#[trigger] s[i]) by {
            if i < d.len() {
                assert(s[i] == d[i]);
            }
        }
    }
}

/// Reading back a number written in decimal gives the number.
pub proof fn lemma_parse_decimal_round_trip(n: u64)
    ensures
        parse_u64_spec(decimal(n as nat)) == Some(n as nat),
{
    lemma_decimal_digits(n as nat);
    assert(is_digit(decimal(n as nat)[0]));
}

/// The meaning of one line of ffmpeg's progress stream.
pub fn parse_progress_line(line: &str) -> (r: ProgressLine)
    ensures
        r == progress_line_spec(line@),
{
    let t = trim(line);
    match strip_prefix(t.as_str(), "out_time_us=") {
        Some(v) => match parse_u64(v.as_str()) {
            Some(n) => ProgressLine::OutTime(n),
            None => ProgressLine::Other,
        },
        None => match strip_prefix(t.as_str(), "out_time_ms=") {
            Some(v) => match parse_u64(v.as_str()) {
                Some(n) => ProgressLine::OutTime(n),
                None => ProgressLine::Other,
            },
            None => match strip_prefix(t.as_str(), "progress=end") {
                Some(rest) => {
                    proof {
                        lemma_strip_prefix_whole(t@, "progress=end"@);
                    }
                    if rest.as_str().unicode_len() == 0 {
                        ProgressLine::End
                    } else {
                        ProgressLine::Other
                    }
                },
                None => {
                    proof {
                        lemma_strip_prefix_whole(t@, "progress=end"@);
                    }
                    ProgressLine::Other
                },
            },
        },
    }
}

/// The two filters of kept range `i` (bounds already written out, in
/// seconds): a video trim and an audio trim, each restarting its clock.
pub open spec fn range_filters(i: nat, start: Seq<char>, end: Seq<char>) -> Seq<char> {
    "[0:v]trim=start="@ + start + ":end="@ + end + ",setpts=PTS-STARTPTS[v"@ + decimal(i) + "];"@
        + "[0:a]atrim=start="@ + start + ":end="@ + end + ",asetpts=PTS-STARTPTS[a"@ + decimal(i)
        + "]"@
}

/// The filters of the ranges from `i` on, each followed by `;`.
pub open spec fn all_range_filters(ranges: Seq<(Seq<char>, Seq<char>)>, i: nat) -> Seq<char>
    decreases ranges.len() - i,
{
    if i >= ranges.len() {
        Seq::empty()
    } else {
        range_filters(i, ranges[i as int].0, ranges[i as int].1) + ";"@ + all_range_filters(
            ranges,
            i + 1,
        )
    }
}

/// `[v0][a0][v1][a1]...` for the first `n` ranges.
pub open spec fn concat_inputs(n: nat) -> Seq<char>
    decreases n,
{
    if n == 0 {
        Seq::empty()
    } else {
        concat_inputs((n - 1) as nat) + "[v"@ + decimal((n - 1) as nat) + "][a"@ + decimal(
            (n - 1) as nat,
        ) + "]"@
    }
}

/// The `-filter_complex` graph: every kept range trimmed out of video and
/// audio, then the pieces concatenated in order.
pub open spec fn trim_concat_filter_spec(ranges: Seq<(Seq<char>, Seq<char>)>) -> Seq<char> {
    all_range_filters(ranges, 0) + concat_inputs(ranges.len()) + "concat=n="@ + decimal(
        ranges.len(),
    ) + ":v=1:a=1[outv][outa]"@
}

pub open spec fn bounds_view(ranges: Seq<(String, String)>) -> Seq<(Seq<char>, Seq<char>)> {
    ranges.map_values(|r: (String, String)| (r.0@, r.1@))
}

fn push_str(out: &mut String, s: &str)
    ensures
        final(out)@ == old(out)@ + s@,
{
    out.append(s);
}

proof fn lemma_all_range_filters_split(ranges: Seq<(Seq<char>, Seq<char>)>, i: nat)
    requires
        i <= ranges.len(),
    ensures
        all_range_filters(ranges, 0) == all_range_filters(ranges.take(i as int), 0)
            + all_range_filters(ranges, i),
    decreases i,
{
    if i > 0 {
        lemma_all_range_filters_split(ranges, (i - 1) as nat);
        lemma_prefix_filters(ranges.take(i as int), (i - 1) as nat);
        assert(ranges.take(i as int).take(i - 1) =~= ranges.take(i - 1));
        assert(ranges.take(i as int)[i - 1] == ranges[i - 1]);
        assert(all_range_filters(ranges.take(i as int), i) == Seq::<char>::empty());
    }
}

proof fn lemma_prefix_filters(ranges: Seq<(Seq<char>, Seq<char>)>, i: nat)
    requires
        i < ranges.len(),
    ensures
        all_range_filters(ranges, 0) == all_range_filters(ranges.take(i as int), 0)
            + range_filters(i, ranges[i as int].0, ranges[i as int].1) + ";"@ + all_range_filters(
            ranges,
            i + 1,
        ),
    decreases i,
{
    lemma_filters_from(ranges, 0, i);
}

proof fn lemma_filters_from(ranges: Seq<(Seq<char>, Seq<char>)>, j: nat, i: nat)
    requires
        j <= i < ranges.len(),
    ensures
        all_range_filters(ranges, j) == all_range_filters(ranges.take(i as int), j) + range_filters(
            i,
            ranges[i as int].0,
            ranges[i as int].1,
        ) + ";"@ + all_range_filters(ranges, i + 1),
    decreases i - j,
{
    let t = ranges.take(i as int);
    if j < i {
        lemma_filters_from(ranges, j + 1, i);
        assert(t[j as int] == ranges[j as int]);
        assert(all_range_filters(t, j) == range_filters(j, t[j as int].0, t[j as int].1) + ";"@
            + all_range_filters(t, j + 1));
    } else {
        assert(all_range_filters(t, j) == Seq::<char>::empty());
    }
}

/// The filter graph for the kept ranges, given with their bounds written
/// out in seconds.
pub fn trim_concat_filter(ranges: &Vec<(String, String)>) -> (r: String)
    ensures
        r@ == trim_concat_filter_spec(bounds_view(ranges@)),
{
    let ghost rs = bounds_view(ranges@);
    let mut filters = String::new();
    let mut inputs = String::new();
    let mut i: usize = 0;
    while i < ranges.len()
        invariant
            i <= ranges.len(),
            rs == bounds_view(ranges@),
            filters@ == all_range_filters(rs.take(i as int), 0),
            inputs@ == concat_inputs(i as nat),
        decreases ranges.len() - i,
    {
        let num = u64_to_decimal(i as u64);
        let (start, end) = (&ranges[i].0, &ranges[i].1);
        let ghost before = filters@;
        push_str(&mut filters, "[0:v]trim=start=");
        push_str(&mut filters, start.as_str());
        push_str(&mut filters, ":end=");
        push_str(&mut filters, end.as_str());
        push_str(&mut filters, ",setpts=PTS-STARTPTS[v");
        push_str(&mut filters, num.as_str());
        push_str(&mut filters, "];");
        push_str(&mut filters, "[0:a]atrim=start=");
        push_str(&mut filters, start.as_str());
        push_str(&mut filters, ":end=");
        push_str(&mut filters, end.as_str());
        push_str(&mut filters, ",asetpts=PTS-STARTPTS[a");
        push_str(&mut filters, num.as_str());
        push_str(&mut filters, "]");
        push_str(&mut filters, ";");
        let ghost ins = inputs@;
        push_str(&mut inputs, "[v");
        push_str(&mut inputs, num.as_str());
        push_str(&mut inputs, "][a");
        push_str(&mut inputs, num.as_str());
        push_str(&mut inputs, "]");
        proof {
            assert(rs[i as int] == (start@, end@));
            assert(filters@ =~= before + range_filters(i as nat, start@, end@) + ";"@);
            lemma_prefix_filters(rs.take(i + 1), i as nat);
            assert(rs.take(i + 1).take(i as int) =~= rs.take(i as int));
            assert(rs.take(i + 1)[i as int] == rs[i as int]);
            assert(all_range_filters(rs.take(i + 1), (i + 1) as nat) == Seq::<char>::empty());
            assert(filters@ =~= all_range_filters(rs.take(i + 1), 0));
            assert(inputs@ =~= ins + "[v"@ + decimal(i as nat) + "][a"@ + decimal(i as nat) + "]"@);
        }
        i = i + 1;
    }
    assert(rs.take(ranges.len() as int) =~= rs);
    let mut out = filters;
    push_str(&mut out, inputs.as_str());
    push_str(&mut out, "concat=n=");
    let count = u64_to_decimal(ranges.len() as u64);
    push_str(&mut out, count.as_str());
    push_str(&mut out, ":v=1:a=1[outv][outa]");
    assert(out@ =~= trim_concat_filter_spec(rs));
    out
}

/// The i-th piece of the graph trims exactly the i-th kept range: right
/// after the filters of the earlier ranges, the graph holds the video trim
/// and the audio trim of piece `i`, both from `ranges[i].0` to
/// `ranges[i].1`, so no piece covers time outside its own kept range and
/// the pieces come in the order of the ranges.
pub proof fn lemma_piece_trims_its_range(ranges: Seq<(Seq<char>, Seq<char>)>, i: int)
    requires
        0 <= i < ranges.len(),
    ensures
        ({
            let g = trim_concat_filter_spec(ranges);
            let off = all_range_filters(ranges.take(i), 0).len() as int;
            let piece = "[0:v]trim=start="@ + ranges[i].0 + ":end="@ + ranges[i].1
                + ",setpts=PTS-STARTPTS[v"@ + decimal(i as nat) + "];"@ + "[0:a]atrim=start="@
                + ranges[i].0 + ":end="@ + ranges[i].1 + ",asetpts=PTS-STARTPTS[a"@ + decimal(
                i as nat,
            ) + "]"@;
            &&& off + piece.len() <= g.len()
            &&& g.subrange(off, off + piece.len()) == piece
        }),
{
    lemma_prefix_filters(ranges, i as nat);
    let g = trim_concat_filter_spec(ranges);
    let a = all_range_filters(ranges.take(i), 0);
    let p = range_filters(i as nat, ranges[i].0, ranges[i].1);
    let rest = ";"@ + all_range_filters(ranges, (i + 1) as nat) + concat_inputs(ranges.len())
        + "concat=n="@ + decimal(ranges.len()) + ":v=1:a=1[outv][outa]"@;
    assert(g =~= a + p + rest);
    assert((a + p + rest).subrange(a.len() as int, (a.len() + p.len()) as int) =~= p);
}

proof fn lemma_concat_inputs_prefix(m: nat, n: nat)
    requires
        m <= n,
    ensures
        concat_inputs(m).len() <= concat_inputs(n).len(),
        concat_inputs(n).take(concat_inputs(m).len() as int) == concat_inputs(m),
    decreases n,
{
    if m < n {
        lemma_concat_inputs_prefix(m, (n - 1) as nat);
        let c = concat_inputs((n - 1) as nat);
        let d = concat_inputs(n);
        assert(d.take(c.len() as int) =~= c);
        assert(d.take(concat_inputs(m).len() as int) =~= c.take(concat_inputs(m).len() as int));
    } else {
        assert(concat_inputs(n).take(concat_inputs(n).len() as int) =~= concat_inputs(n));
    }
}

/// The pieces are joined in the order of the kept ranges, and all of them:
/// after the trims, the concat filter takes `[v0][a0]`, `[v1][a1]`, ... in
/// turn, each video piece beside its own audio piece, and is told there are
/// as many segments as kept ranges, one video and one audio stream out.
pub proof fn lemma_pieces_joined_in_order(ranges: Seq<(Seq<char>, Seq<char>)>, i: int)
    requires
        0 <= i < ranges.len(),
    ensures
        ({
            let g = trim_concat_filter_spec(ranges);
            let off = all_range_filters(ranges, 0).len() + concat_inputs(i as nat).len();
            let input = "[v"@ + decimal(i as nat) + "][a"@ + decimal(i as nat) + "]"@;
            &&& off + input.len() <= g.len()
            &&& g.subrange(off as int, (off + input.len()) as int) == input
        }),
        ({
            let g = trim_concat_filter_spec(ranges);
            let tail = "concat=n="@ + decimal(ranges.len()) + ":v=1:a=1[outv][outa]"@;
            &&& tail.len() <= g.len()
            &&& g.subrange(g.len() - tail.len(), g.len() as int) == tail
        }),
{
    let g = trim_concat_filter_spec(ranges);
    let a = all_range_filters(ranges, 0);
    let n = ranges.len();
    let ci = concat_inputs(i as nat);
    let input = "[v"@ + decimal(i as nat) + "][a"@ + decimal(i as nat) + "]"@;
    let cn = concat_inputs(n);
    let tail = "concat=n="@ + decimal(n) + ":v=1:a=1[outv][outa]"@;
    lemma_concat_inputs_prefix((i + 1) as nat, n);
    let c1 = concat_inputs((i + 1) as nat);
    assert(c1 == ci + input);
    assert(cn =~= c1 + cn.skip(c1.len() as int));
    assert(g =~= a + ci + input + (cn.skip(c1.len() as int) + tail));
    assert(g.subrange((a.len() + ci.len()) as int, (a.len() + ci.len() + input.len()) as int) =~= input);
    assert(g =~= (a + cn) + tail);
    assert(g.subrange(g.len() - tail.len(), g.len() as int) =~= tail);
}

} // verus!
