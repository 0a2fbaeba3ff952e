//! SRT → ASS conversion for subtitle tracks: each SRT cue becomes one ASS
//! `Dialogue` line in a fixed script with a single `Default` style.
use vstd::prelude::*;
use crate::text::{
    chars_of, contains, find_char, matches_at, occurs_at, parse_u32, seq_contains, slice_range,
    spec_parse_u32, string_of, trim, trimmed, is_digit, is_white, lead_white, trail_white,
};

verus! {

// ─── lines ───────────────────────────────────────────────────────────────────

/// `s` split at every `'\n'`: always at least one piece.
pub open spec fn split_nl(s: Seq<char>) -> Seq<Seq<char>>
    decreases s.len(),
{
    if s.len() == 0 {
        seq![Seq::empty()]
    } else {
        let p = split_nl(s.drop_last());
        if s.last() == '\n' {
            p.push(Seq::empty())
        } else {
            p.update(p.len() - 1, p.last().push(s.last()))
        }
    }
}

/// The lines of `s`, as `str::lines` yields them up to a trailing `'\r'`
/// (which the conversion trims away anyway): no line for the empty string,
/// and no empty last line after a final `'\n'`.
pub open spec fn text_lines(s: Seq<char>) -> Seq<Seq<char>> {
    if s.len() == 0 {
        Seq::empty()
    } else if s.last() == '\n' {
        split_nl(s).drop_last()
    } else {
        split_nl(s)
    }
}

proof fn lemma_split_nl_nonempty(s: Seq<char>)
    ensures
        split_nl(s).len() >= 1,
    decreases s.len(),
{
    if s.len() > 0 {
        lemma_split_nl_nonempty(s.drop_last());
    }
}

// ─── timestamps ──────────────────────────────────────────────────────────────

/// The number of bytes that `c` takes in UTF-8.
pub open spec fn char_len(c: char) -> nat {
    let u = c as u32;
    if u < 0x80 {
        1
    } else if u < 0x800 {
        2
    } else if u < 0x10000 {
        3
    } else {
        4
    }
}

/// The number of bytes that `s` takes in UTF-8.
pub open spec fn utf8_len(s: Seq<char>) -> nat
    decreases s.len(),
{
    if s.len() == 0 {
        0
    } else {
        utf8_len(s.drop_last()) + char_len(s.last())
    }
}

/// The first `k` characters of `s` take exactly `n` bytes.
pub open spec fn is_byte_cut(s: Seq<char>, n: nat, k: int) -> bool {
    0 <= k <= s.len() && utf8_len(s.take(k)) == n
}

/// The prefix of `s` that is exactly `n` bytes long, if a character
/// boundary falls there (the slice `&s[..n]` panics otherwise).
pub open spec fn byte_prefix(s: Seq<char>, n: nat) -> Option<Seq<char>> {
    if exists|k: int| is_byte_cut(s, n, k) {
        Some(s.take(choose|k: int| is_byte_cut(s, n, k)))
    } else {
        None
    }
}

/// `s` with every `,` replaced by `.`.
pub open spec fn comma_to_dot(s: Seq<char>) -> Seq<char> {
    s.map_values(|c: char| if c == ',' { '.' } else { c })
}

/// An SRT timestamp made ASS-like: trimmed, `,` → `.`, cut to 10 bytes;
/// `None` where the cut would split a character.
pub open spec fn ass_time(s: Seq<char>) -> Option<Seq<char>> {
    let t = comma_to_dot(trimmed(s));
    if utf8_len(t) > 10 {
        byte_prefix(t, 10)
    } else {
        Some(t)
    }
}

// ─── cues ────────────────────────────────────────────────────────────────────

/// The separator of an SRT timing line.
pub open spec fn arrow() -> Seq<char> {
    seq!['-', '-', '>']
}

/// `i` is the leftmost occurrence of `n` in `s`.
pub open spec fn is_first_occurrence(s: Seq<char>, n: Seq<char>, i: int) -> bool {
    occurs_at(s, n, i) && forall|j: int| 0 <= j < i ==> !occurs_at(s, n, j)
}

/// The two sides of a timing line, when splitting it at `-->` gives
/// exactly two pieces (exactly one non-overlapping occurrence).
pub open spec fn arrow_parts(t: Seq<char>) -> Option<(Seq<char>, Seq<char>)> {
    if exists|i: int| is_first_occurrence(t, arrow(), i) {
        let i = choose|i: int| is_first_occurrence(t, arrow(), i);
        let rest = t.skip(i + 3);
        if seq_contains(rest, arrow()) {
            None
        } else {
            Some((t.take(i), rest))
        }
    } else {
        None
    }
}

/// The text lines of a cue, from line `j` on: every non-blank line
/// (trimmed) up to the first blank one, which is consumed too; with the
/// number of lines consumed.
pub open spec fn cue_text(ls: Seq<Seq<char>>, j: int) -> (Seq<Seq<char>>, nat)
    decreases ls.len() - j,
{
    if j < 0 || j >= ls.len() {
        (Seq::empty(), 0)
    } else if trimmed(ls[j]).len() == 0 {
        (Seq::empty(), 1)
    } else {
        let (t, k) = cue_text(ls, j + 1);
        (seq![trimmed(ls[j])] + t, k + 1)
    }
}

/// Text lines joined with the ASS line break `\N`.
pub open spec fn join_breaks(t: Seq<Seq<char>>) -> Seq<char>
    decreases t.len(),
{
    if t.len() == 0 {
        Seq::empty()
    } else if t.len() == 1 {
        t[0]
    } else {
        join_breaks(t.drop_last()) + seq!['\\', 'N'] + t.last()
    }
}

/// The ASS event line of one cue.
pub open spec fn dialogue(start: Seq<char>, end: Seq<char>, text: Seq<char>) -> Seq<char> {
    "Dialogue: 0,"@ + start + ","@ + end + ",Default,,0,0,0,,"@ + text + "\n"@
}

/// The events of the lines from `i` on: index lines (a `u32`) are skipped,
/// a timing line with one `-->` starts a cue, anything else is skipped.
/// `None` where a timestamp cut would split a character.
pub open spec fn events(ls: Seq<Seq<char>>, i: int) -> Option<Seq<char>>
    decreases ls.len() - i,
{
    if i < 0 || i >= ls.len() {
        Some(Seq::empty())
    } else {
        let t = trimmed(ls[i]);
        if spec_parse_u32(t) is Ok {
            events(ls, i + 1)
        } else if seq_contains(t, arrow()) && arrow_parts(t) is Some {
            let (a, b) = arrow_parts(t).unwrap();
            let (text, k) = cue_text(ls, i + 1);
            let next = i + 1 + k;
            match (ass_time(a), ass_time(b)) {
                (Some(sa), Some(sb)) => if next <= ls.len() {
                    match events(ls, next) {
                        Some(rest) => Some(dialogue(sa, sb, join_breaks(text)) + rest),
                        None => None,
                    }
                } else {
                    None
                },
                _ => None,
            }
        } else {
            events(ls, i + 1)
        }
    }
}

/// The fixed ASS script header: script info, the `Default` style and the
/// event format line.
pub open spec fn ass_header() -> Seq<char> {
    "[Script Info]\nScriptType: v4.00+\nPlayResX: 384\nPlayResY: 288\n\n[V4+ Styles]\nFormat: Name,Fontname,Fontsize,PrimaryColour,BackColour,Bold,Italic,BorderStyle,Outline,Shadow,Alignment,MarginL,MarginR,MarginV,Encoding\nStyle: Default,Arial,20,&H00FFFFFF,&H00000000,-1,0,1,2,0,2,10,10,10,1\n\n[Events]\nFormat: Layer,Start,End,Style,Name,MarginL,MarginR,MarginV,Effect,Text\n"@
}

/// The subtitle converts: no timestamp cut splits a character.
pub open spec fn srt_convertible(srt: Seq<char>) -> bool {
    events(text_lines(srt), 0) is Some
}

/// The ASS script of an SRT subtitle.
pub open spec fn ass_of(srt: Seq<char>) -> Seq<char> {
    ass_header() + events(text_lines(srt), 0).unwrap()
}

// ─── conversion ──────────────────────────────────────────────────────────────

/// The lines held by a vector of character vectors.
pub open spec fn lines_view(v: Seq<Vec<char>>) -> Seq<Seq<char>> {
    Seq::new(v.len(), |i: int| v[i]@)
}

proof fn lemma_lines_push(v: Seq<Vec<char>>, x: Vec<char>)
    ensures
        lines_view(v.push(x)) == lines_view(v).push(x@),
{
    assert(lines_view(v.push(x)) =~= lines_view(v).push(x@));
}

/// Splits `c` into its lines.
fn split_lines(c: &[char]) -> (r: Vec<Vec<char>>)
    ensures
        lines_view(r@) == text_lines(c@),
{
    let mut done: Vec<Vec<char>> = Vec::new();
    let mut cur: Vec<char> = Vec::new();
    let mut i: usize = 0;
    assert(c@.take(0) =~= Seq::<char>::empty());
    assert(lines_view(done@).push(cur@) =~= seq![Seq::<char>::empty()]);
    while i < c.len()
        invariant
            i <= c.len(),
            split_nl(c@.take(i as int)) == lines_view(done@).push(cur@),
        decreases c.len() - i,
    {
        let ghost pre = c@.take(i as int);
        let ghost next = c@.take(i + 1);
        assert(next.drop_last() =~= pre);
        assert(next.last() == c@[i as int]);
        if c[i] == '\n' {
            proof {
                lemma_lines_push(done@, cur);
            }
            done.push(cur);
            cur = Vec::new();
            assert(split_nl(next) =~= lines_view(done@).push(cur@));
        } else {
            let ghost cur0 = cur@;
            cur.push(c[i]);
            assert(split_nl(next) =~= lines_view(done@).push(cur@));
        }
        i = i + 1;
    }
    assert(c@.take(c.len() as int) =~= c@);
    if c.len() == 0 {
        let r: Vec<Vec<char>> = Vec::new();
        assert(lines_view(r@) =~= text_lines(c@));
        return r;
    }
    if c[c.len() - 1] == '\n' {
        proof {
            let p = split_nl(c@.drop_last());
            assert(c@.drop_last().len() < c@.len());
            assert(split_nl(c@) == p.push(Seq::<char>::empty()));
            assert(split_nl(c@).drop_last() =~= lines_view(done@));
        }
        done
    } else {
        proof {
            lemma_lines_push(done@, cur);
        }
        done.push(cur);
        done
    }
}

proof fn lemma_utf8_take_step(s: Seq<char>, k: int)
    requires
        0 <= k < s.len(),
    ensures
        utf8_len(s.take(k + 1)) == utf8_len(s.take(k)) + char_len(s[k]),
{
    assert(s.take(k + 1).drop_last() =~= s.take(k));
}

proof fn lemma_utf8_take_mono(s: Seq<char>, k1: int, k2: int)
    requires
        0 <= k1 < k2 <= s.len(),
    ensures
        utf8_len(s.take(k1)) < utf8_len(s.take(k2)),
    decreases k2 - k1,
{
    lemma_utf8_take_step(s, k2 - 1);
    if k1 < k2 - 1 {
        lemma_utf8_take_mono(s, k1, k2 - 1);
    }
}

fn char_bytes(c: char) -> (r: usize)
    ensures
        r == char_len(c),
{
    let u = c as u32;
    if u < 0x80 {
        1
    } else if u < 0x800 {
        2
    } else if u < 0x10000 {
        3
    } else {
        4
    }
}

/// Whether `t` takes more than 10 bytes in UTF-8.
fn longer_than_10(t: &[char]) -> (r: bool)
    ensures
        r == (utf8_len(t@) > 10),
{
    let mut b: usize = 0;
    let mut k: usize = 0;
    assert(t@.take(0) =~= Seq::<char>::empty());
    while k < t.len()
        invariant
            k <= t.len(),
            b == utf8_len(t@.take(k as int)),
            b <= 10,
        decreases t.len() - k,
    {
        proof {
            lemma_utf8_take_step(t@, k as int);
        }
        b = b + char_bytes(t[k]);
        k = k + 1;
        if b > 10 {
            proof {
                if k < t.len() {
                    lemma_utf8_take_mono(t@, k as int, t.len() as int);
                }
                assert(t@.take(t.len() as int) =~= t@);
            }
            return true;
        }
    }
    assert(t@.take(t.len() as int) =~= t@);
    false
}

/// The 10-byte prefix of `t`, if a character boundary falls there.
fn prefix_10(t: &[char]) -> (r: Option<Vec<char>>)
    ensures
        match r {
            Some(p) => byte_prefix(t@, 10) == Some(p@),
            None => byte_prefix(t@, 10) is None,
        },
{
    let mut b: usize = 0;
    let mut k: usize = 0;
    assert(t@.take(0) =~= Seq::<char>::empty());
    while k < t.len() && b < 10
        invariant
            k <= t.len(),
            b == utf8_len(t@.take(k as int)),
            b <= 13,
            k > 0 ==> utf8_len(t@.take(k - 1)) < 10,
        decreases t.len() - k,
    {
        proof {
            lemma_utf8_take_step(t@, k as int);
        }
        b = b + char_bytes(t[k]);
        k = k + 1;
    }
    if b == 10 {
        proof {
            assert(is_byte_cut(t@, 10, k as int));
            let k2 = choose|k2: int| is_byte_cut(t@, 10, k2);
            if k2 < k {
                lemma_utf8_take_mono(t@, k2, k as int);
            } else if k < k2 {
                lemma_utf8_take_mono(t@, k as int, k2);
            }
        }
        Some(slice_range(t, 0, k))
    } else {
        proof {
            assert forall|k2: int| !is_byte_cut(t@, 10, k2) by {
                if 0 <= k2 <= t.len() {
                    if k2 < k {
                        if k2 < k - 1 {
                            lemma_utf8_take_mono(t@, k2, k - 1);
                        }
                    } else if k < k2 {
                        lemma_utf8_take_mono(t@, k as int, k2);
                    }
                }
            }
        }
        None
    }
}

/// What `ass_time` gives for the characters `s`.
fn ass_time_of(s: &[char]) -> (r: Option<Vec<char>>)
    ensures
        match r {
            Some(p) => ass_time(s@) == Some(p@),
            None => ass_time(s@) is None,
        },
{
    let tr = trim(s);
    let mut t: Vec<char> = Vec::new();
    let mut i: usize = 0;
    while i < tr.len()
        invariant
            i <= tr.len(),
            t@ == comma_to_dot(tr@.take(i as int)),
        decreases tr.len() - i,
    {
        let c = tr[i];
        t.push(if c == ',' { '.' } else { c });
        i = i + 1;
        assert(t@ =~= comma_to_dot(tr@.take(i as int)));
    }
    assert(tr@.take(tr.len() as int) =~= tr@);
    if longer_than_10(t.as_slice()) {
        prefix_10(t.as_slice())
    } else {
        Some(t)
    }
}

/// The leftmost occurrence of `needle` in `hay`.
fn find_sub(hay: &[char], needle: &[char]) -> (r: Option<usize>)
    ensures
        match r {
            Some(i) => is_first_occurrence(hay@, needle@, i as int),
            None => !seq_contains(hay@, needle@),
        },
{
    if needle.len() > hay.len() {
        return None;
    }
    let last = hay.len() - needle.len();
    let mut i: usize = 0;
    loop
        invariant
            last + needle.len() == hay.len(),
            i <= last,
            forall|j: int| 0 <= j < i ==> !occurs_at(hay@, needle@, j),
        decreases last - i,
    {
        if matches_at(hay, needle, i) {
            return Some(i);
        }
        if i == last {
            assert forall|j: int| !occurs_at(hay@, needle@, j) by {
                if 0 <= j && j + needle.len() <= hay.len() {
                    assert(j <= i);
                }
            }
            return None;
        }
        i = i + 1;
    }
}

proof fn lemma_first_occurrence_unique(s: Seq<char>, n: Seq<char>, i: int, k: int)
    requires
        is_first_occurrence(s, n, i),
        is_first_occurrence(s, n, k),
    ensures
        i == k,
{
}

/// What `arrow_parts` gives for the characters `t`.
fn arrow_parts_of(t: &[char]) -> (r: Option<(Vec<char>, Vec<char>)>)
    ensures
        match r {
            Some((a, b)) => arrow_parts(t@) == Some((a@, b@)),
            None => arrow_parts(t@) is None,
        },
{
    let arr = vec!['-', '-', '>'];
    assert(arr@ =~= arrow());
    match find_sub(t, arr.as_slice()) {
        None => {
            assert forall|i: int| !is_first_occurrence(t@, arrow(), i) by {}
            None
        },
        Some(i) => {
            proof {
                let k = choose|k: int| is_first_occurrence(t@, arrow(), k);
                lemma_first_occurrence_unique(t@, arrow(), i as int, k);
            }
            assert(occurs_at(t@, arr@, i as int));
            assert(arr@.len() == 3);
            assert(i + 3 <= t@.len());
            let n = t.len();
            assert(i + 3 <= n);
            let rest = slice_range(t, i + 3, n);
            assert(rest@ =~= t@.skip(i + 3));
            if contains(rest.as_slice(), arr.as_slice()) {
                None
            } else {
                let a = slice_range(t, 0, i);
                assert(a@ =~= t@.take(i as int));
                Some((a, rest))
            }
        },
    }
}

/// The text lines of the cue that starts at line `start`, and the index of
/// the first line after them (and after the blank line that ends them).
fn cue_text_of(ls: &Vec<Vec<char>>, start: usize) -> (r: (Vec<Vec<char>>, usize))
    requires
        start <= ls.len(),
    ensures
        cue_text(lines_view(ls@), start as int) == (lines_view(r.0@), (r.1 - start) as nat),
        start <= r.1 <= ls.len(),
{
    let ghost lv = lines_view(ls@);
    let mut texts: Vec<Vec<char>> = Vec::new();
    let mut j: usize = start;
    assert(lines_view(texts@) + cue_text(lv, j as int).0 =~= cue_text(lv, j as int).0);
    loop
        invariant
            lv == lines_view(ls@),
            start <= j <= ls.len(),
            cue_text(lv, start as int) == (
                lines_view(texts@) + cue_text(lv, j as int).0,
                ((j - start) + cue_text(lv, j as int).1) as nat,
            ),
        decreases ls.len() - j,
    {
        if j >= ls.len() {
            assert(lines_view(texts@) + cue_text(lv, j as int).0 =~= lines_view(texts@));
            return (texts, j);
        }
        let tj = trim(ls[j].as_slice());
        assert(lv[j as int] == ls@[j as int]@);
        if tj.len() == 0 {
            assert(lines_view(texts@) + cue_text(lv, j as int).0 =~= lines_view(texts@));
            return (texts, j + 1);
        }
        let ghost before = lines_view(texts@);
        proof {
            lemma_lines_push(texts@, tj);
        }
        texts.push(tj);
        assert(lines_view(texts@) + cue_text(lv, j + 1).0 =~= before + cue_text(lv, j as int).0);
        j = j + 1;
    }
}

/// The characters of a literal appended to `out`.
fn append_lit(out: &mut Vec<char>, s: &str)
    ensures
        final(out)@ == old(out)@ + s@,
{
    let c = chars_of(s);
    append_chars(out, c.as_slice());
}

/// `s` appended to `out`.
fn append_chars(out: &mut Vec<char>, s: &[char])
    ensures
        final(out)@ == old(out)@ + s@,
{
    let ghost start = out@;
    let mut i: usize = 0;
    while i < s.len()
        invariant
            i <= s.len(),
            out@ == start + s@.take(i as int),
        decreases s.len() - i,
    {
        out.push(s[i]);
        i = i + 1;
        assert(out@ =~= start + s@.take(i as int));
    }
    assert(s@.take(s.len() as int) =~= s@);
}

/// Text lines joined with `\N`, appended to `out`.
fn append_joined(out: &mut Vec<char>, texts: &Vec<Vec<char>>)
    ensures
        final(out)@ == old(out)@ + join_breaks(lines_view(texts@)),
{
    let ghost start = out@;
    let ghost tv = lines_view(texts@);
    let mut k: usize = 0;
    assert(tv.take(0) =~= Seq::<Seq<char>>::empty());
    while k < texts.len()
        invariant
            tv == lines_view(texts@),
            k <= texts.len(),
            out@ == start + join_breaks(tv.take(k as int)),
        decreases texts.len() - k,
    {
        let ghost before = out@;
        if k > 0 {
            out.push('\\');
            out.push('N');
        }
        append_chars(out, texts[k].as_slice());
        k = k + 1;
        proof {
            let t = tv.take(k as int);
            assert(t.drop_last() =~= tv.take(k - 1));
            assert(t.last() == texts@[k - 1]@);
            if k == 1 {
                assert(join_breaks(t) == t[0]);
                assert(join_breaks(tv.take(0)) =~= Seq::<char>::empty());
            }
            assert(out@ =~= start + join_breaks(t));
        }
    }
    assert(tv.take(texts.len() as int) =~= tv);
}

/// How the events from line `i` on complete those gathered so far.
pub open spec fn with_prefix(p: Seq<char>, rest: Option<Seq<char>>) -> Option<Seq<char>> {
    match rest {
        Some(x) => Some(p + x),
        None => None,
    }
}

/// The events of all the lines, `None` where a timestamp cut would split a
/// character.
fn events_of(ls: &Vec<Vec<char>>) -> (r: Option<Vec<char>>)
    ensures
        match r {
            Some(v) => events(lines_view(ls@), 0) == Some(v@),
            None => events(lines_view(ls@), 0) is None,
        },
{
    let ghost lv = lines_view(ls@);
    let mut out: Vec<char> = Vec::new();
    let arr = vec!['-', '-', '>'];
    assert(arr@ =~= arrow());
    let mut i: usize = 0;
    assert(with_prefix(out@, events(lv, 0)) =~= events(lv, 0));
    while i < ls.len()
        invariant
            lv == lines_view(ls@),
            arr@ == arrow(),
            i <= ls.len(),
            events(lv, 0) == with_prefix(out@, events(lv, i as int)),
        decreases ls.len() - i,
    {
        let t = trim(ls[i].as_slice());
        assert(lv[i as int] == ls@[i as int]@);
        if parse_u32(t.as_slice()).is_ok() {
            i = i + 1;
        } else if contains(t.as_slice(), arr.as_slice()) {
            match arrow_parts_of(t.as_slice()) {
                None => {
                    i = i + 1;
                },
                Some((a, b)) => {
                    let (texts, next) = cue_text_of(ls, i + 1);
                    let sa = match ass_time_of(a.as_slice()) {
                        Some(x) => x,
                        None => return None,
                    };
                    let sb = match ass_time_of(b.as_slice()) {
                        Some(x) => x,
                        None => return None,
                    };
                    let ghost before = out@;
                    append_lit(&mut out, "Dialogue: 0,");
                    append_chars(&mut out, sa.as_slice());
                    append_lit(&mut out, ",");
                    append_chars(&mut out, sb.as_slice());
                    append_lit(&mut out, ",Default,,0,0,0,,");
                    append_joined(&mut out, &texts);
                    append_lit(&mut out, "\n");
                    let ghost d = dialogue(sa@, sb@, join_breaks(lines_view(texts@)));
                    assert(out@ =~= before + d);
                    proof {
                        match events(lv, next as int) {
                            Some(x) => {
                                assert(before + (d + x) =~= out@ + x);
                            },
                            None => {},
                        }
                    }
                    i = next;
                },
            }
        } else {
            i = i + 1;
        }
    }
    assert(out@ + Seq::<char>::empty() =~= out@);
    Some(out)
}

/// Whether the subtitle converts: no timestamp cut splits a character.
pub fn is_convertible(srt: &str) -> (r: bool)
    ensures
        r == srt_convertible(srt@),
{
    let c = chars_of(srt);
    let ls = split_lines(c.as_slice());
    events_of(&ls).is_some()
}

/// Converts an SRT subtitle to an ASS script: the fixed header, then one
/// `Dialogue` event per cue (index lines skipped; timestamps trimmed, `,`
/// turned into `.`, cut to 10 bytes; text lines joined with `\N`).
pub fn srt_to_ass(srt: &str) -> (r: String)
    requires
        srt_convertible(srt@),
    ensures
        r@ == ass_of(srt@),
{
    let c = chars_of(srt);
    let ls = split_lines(c.as_slice());
    let mut out: Vec<char> = Vec::new();
    append_lit(&mut out, "[Script Info]\nScriptType: v4.00+\nPlayResX: 384\nPlayResY: 288\n\n[V4+ Styles]\nFormat: Name,Fontname,Fontsize,PrimaryColour,BackColour,Bold,Italic,BorderStyle,Outline,Shadow,Alignment,MarginL,MarginR,MarginV,Encoding\nStyle: Default,Arial,20,&H00FFFFFF,&H00000000,-1,0,1,2,0,2,10,10,10,1\n\n[Events]\nFormat: Layer,Start,End,Style,Name,MarginL,MarginR,MarginV,Effect,Text\n");
    assert(out@ == ass_header());
    match events_of(&ls) {
        Some(ev) => {
            append_chars(&mut out, ev.as_slice());
            string_of(out.as_slice())
        },
        None => {
            assert(false);
            string_of(out.as_slice())
        },
    }
}

/// The event format of every script names the fields in the order in which
/// each `Dialogue` line writes them: the script holds the line
/// `Format: Layer,Start,End,Style,Name,MarginL,MarginR,MarginV,Effect,Text`
/// under `[Events]`, and a cue's line gives the layer, then its start, then
/// its end.
pub proof fn law_event_fields_in_order(srt: Seq<char>, start: Seq<char>, end: Seq<char>, text: Seq<char>)
    ensures
        occurs_at(
            ass_of(srt),
            "[Events]\nFormat: Layer,Start,End,Style,Name,MarginL,MarginR,MarginV,Effect,Text\n"@,
            284,
        ),
        dialogue(start, end, text).take(14 + start.len() + end.len() as int) == "Dialogue: 0,"@ + start
            + ","@ + end + ","@,
{
    reveal_strlit("[Events]\nFormat: Layer,Start,End,Style,Name,MarginL,MarginR,MarginV,Effect,Text\n");
    reveal_strlit("[Script Info]\nScriptType: v4.00+\nPlayResX: 384\nPlayResY: 288\n\n[V4+ Styles]\nFormat: Name,Fontname,Fontsize,PrimaryColour,BackColour,Bold,Italic,BorderStyle,Outline,Shadow,Alignment,MarginL,MarginR,MarginV,Encoding\nStyle: Default,Arial,20,&H00FFFFFF,&H00000000,-1,0,1,2,0,2,10,10,10,1\n\n[Events]\nFormat: Layer,Start,End,Style,Name,MarginL,MarginR,MarginV,Effect,Text\n");
    let n = "[Events]\nFormat: Layer,Start,End,Style,Name,MarginL,MarginR,MarginV,Effect,Text\n"@;
    let a = ass_of(srt);
    assert(ass_header().len() == 364);
    assert(a.subrange(284, 364) =~= ass_header().subrange(284, 364));
    assert(ass_header().subrange(284, 364) =~= n);
    reveal_strlit("Dialogue: 0,");
    reveal_strlit(",");
    reveal_strlit(",Default,,0,0,0,,");
    reveal_strlit("\n");
    let d = dialogue(start, end, text);
    assert(d.take(14 + start.len() + end.len() as int) =~= "Dialogue: 0,"@ + start + ","@ + end + ","@);
}

proof fn lemma_utf8_ascii(x: Seq<char>)
    requires
        forall|i: int| 0 <= i < x.len() ==> (#[trigger] x[i] as u32) < 0x80,
    ensures
        utf8_len(x) == x.len(),
    decreases x.len(),
{
    if x.len() > 0 {
        let y = x.drop_last();
        assert forall|i: int| 0 <= i < y.len() implies (#[trigger] y[i] as u32) < 0x80 by {
            assert(y[i] == x[i]);
        }
        lemma_utf8_ascii(y);
        assert((x.last() as u32) < 0x80);
    }
}

/// A standard SRT timestamp `HH:MM:SS,mmm` becomes `HH:MM:SS.m` in the
/// script: hours, minutes and seconds as they were, the comma turned into a
/// dot, and the milliseconds cut to tenths.
pub proof fn law_srt_time(s: Seq<char>)
    requires
        s.len() == 12,
        forall|i: int| 0 <= i < 12 && i != 2 && i != 5 && i != 8 ==> is_digit(#[trigger] s[i]),
        s[2] == ':',
        s[5] == ':',
        s[8] == ',',
    ensures
        ass_time(s) == Some(s.take(8).push('.').push(s[9])),
{
    assert(is_digit(s[0]) && is_digit(s[11]));
    assert(!is_white(s[0]) && !is_white(s.last()));
    assert(lead_white(s) == 0);
    assert(trail_white(s) == 0);
    assert(trimmed(s) =~= s);
    let t = comma_to_dot(s);
    assert forall|i: int| 0 <= i < t.len() implies (#[trigger] t[i] as u32) < 0x80 by {
        if i != 2 && i != 5 && i != 8 {
            assert(is_digit(s[i]));
        }
    }
    lemma_utf8_ascii(t);
    let p = t.take(10);
    assert forall|i: int| 0 <= i < p.len() implies (#[trigger] p[i] as u32) < 0x80 by {
        assert(p[i] == t[i]);
    }
    lemma_utf8_ascii(p);
    assert(is_byte_cut(t, 10, 10));
    let k = choose|k: int| is_byte_cut(t, 10, k);
    let q = t.take(k);
    assert forall|i: int| 0 <= i < q.len() implies (#[trigger] q[i] as u32) < 0x80 by {
        assert(q[i] == t[i]);
    }
    lemma_utf8_ascii(q);
    assert(k == 10);
    assert(t.take(10) =~= s.take(8).push('.').push(s[9]));
}

} // verus!
