//! Character-level string operations with exact specifications.

use vstd::prelude::*;

verus! {

/// The characters of a string slice, in order (`str::chars` collected).
#[verifier::external_body]
pub(crate) fn chars_of(s: &str) -> (res: Vec<char>)
    ensures
        res@ == s@,
{
    s.chars().collect()
}

/// The string made of the given characters, in order (`String::from_iter`).
#[verifier::external_body]
pub(crate) fn string_of(cs: &Vec<char>) -> (res: String)
    ensures
        res@ == cs@,
{
    cs.iter().collect()
}

/// An owned copy of a string slice.
pub fn string_of_str(s: &str) -> (res: String)
    ensures
        res@ == s@,
{
    let cs = chars_of(s);
    string_of(&cs)
}

/// `pat` occurs in `s` starting at index `i`.
pub open spec fn occurs_at(s: Seq<char>, pat: Seq<char>, i: int) -> bool {
    0 <= i && i + pat.len() <= s.len() && s.subrange(i, i + pat.len()) == pat
}

/// `pat` occurs somewhere in `s` (the empty pattern occurs in every string).
pub open spec fn contains_seq(s: Seq<char>, pat: Seq<char>) -> bool {
    exists|i: int| occurs_at(s, pat, i)
}

/// Whether `pat` occurs in `s` at index `i`.
pub fn occurs_at_exec(s: &Vec<char>, pat: &Vec<char>, i: usize) -> (res: bool)
    ensures
        res == occurs_at(s@, pat@, i as int),
{
    if i > s.len() || pat.len() > s.len() - i {
        return false;
    }
    let mut k: usize = 0;
    while k < pat.len()
        invariant
            i + pat.len() <= s.len(),
            k <= pat.len(),
            forall|j: int| 0 <= j < k ==> s@[i + j] == pat@[j],
        decreases pat.len() - k,
    {
        if s[i + k] != pat[k] {
            assert(s@.subrange(i as int, i + pat.len())[k as int] != pat@[k as int]);
            return false;
        }
        k = k + 1;
    }
    assert(s@.subrange(i as int, i + pat.len()) =~= pat@);
    true
}

/// Whether `pat` occurs in `s`, as `str::contains` with a string pattern.
pub fn contains_chars(s: &Vec<char>, pat: &Vec<char>) -> (res: bool)
    ensures
        res == contains_seq(s@, pat@),
{
    if pat.len() > s.len() {
        assert forall|i: int| !occurs_at(s@, pat@, i) by {}
        return false;
    }
    let last = s.len() - pat.len();
    let mut i: usize = 0;
    while i <= last
        invariant_except_break
            i <= last,
        invariant
            last == s.len() - pat.len(),
            forall|j: int| 0 <= j < i ==> !occurs_at(s@, pat@, j),
        ensures
            forall|j: int| 0 <= j <= last ==> !occurs_at(s@, pat@, j),
        decreases last + 1 - i,
    {
        if occurs_at_exec(s, pat, i) {
            return true;
        }
        if i == last {
            break;
        }
        i = i + 1;
    }
    false
}

/// Whether `pat` occurs in `s`, as `str::contains` with a string pattern.
pub fn contains(s: &str, pat: &str) -> (res: bool)
    ensures
        res == contains_seq(s@, pat@),
{
    let sc = chars_of(s);
    let pc = chars_of(pat);
    contains_chars(&sc, &pc)
}

/// What `str::replace` gives: scanning from the left, each occurrence of `pat`
/// that does not overlap an earlier replaced one becomes `rep`. An empty
/// pattern matches before every character and at the end.
pub open spec fn replace_spec(s: Seq<char>, pat: Seq<char>, rep: Seq<char>) -> Seq<char>
    decreases s.len(),
{
    if pat.len() == 0 {
        if s.len() == 0 {
            rep
        } else {
            rep + seq![s[0]] + replace_spec(s.skip(1), pat, rep)
        }
    } else if s.len() == 0 {
        s
    } else if occurs_at(s, pat, 0) {
        rep + replace_spec(s.skip(pat.len() as int), pat, rep)
    } else {
        seq![s[0]] + replace_spec(s.skip(1), pat, rep)
    }
}

/// Appends the characters of `src` to `out`.
pub fn append_chars(out: &mut Vec<char>, src: &Vec<char>)
    ensures
        final(out)@ == old(out)@ + src@,
{
    let mut k: usize = 0;
    while k < src.len()
        invariant
            k <= src.len(),
            out@ == old(out)@ + src@.take(k as int),
        decreases src.len() - k,
    {
        out.push(src[k]);
        k = k + 1;
        assert(src@.take(k as int) =~= src@.take(k - 1).push(src@[k - 1]));
    }
    assert(src@.take(k as int) =~= src@);
}

/// `str::replace`: every non-overlapping occurrence of `pat`, taken from the
/// left, replaced by `rep`.
pub fn replace_all(s: &str, pat: &str, rep: &str) -> (res: String)
    ensures
        res@ == replace_spec(s@, pat@, rep@),
{
    let sc = chars_of(s);
    let pc = chars_of(pat);
    let rc = chars_of(rep);
    let mut out: Vec<char> = Vec::new();
    let mut i: usize = 0;
    assert(sc@.skip(0) =~= sc@);
    while i < sc.len()
        invariant
            i <= sc.len(),
            out@ + replace_spec(sc@.skip(i as int), pc@, rc@) == replace_spec(sc@, pc@, rc@),
        decreases sc.len() - i,
    {
        let ghost rest = sc@.skip(i as int);
        let ghost before = out@;
        if pc.len() == 0 {
            append_chars(&mut out, &rc);
            out.push(sc[i]);
            assert(rest.skip(1) =~= sc@.skip(i + 1));
            assert(out@ =~= before + rc@ + seq![rest[0]]);
            i = i + 1;
        } else if occurs_at_exec(&sc, &pc, i) {
            assert(occurs_at(rest, pc@, 0)) by {
                assert(rest.subrange(0, pc@.len() as int) =~= sc@.subrange(i as int, i + pc@.len()));
            }
            append_chars(&mut out, &rc);
            assert(rest.skip(pc@.len() as int) =~= sc@.skip(i + pc@.len()));
            i = i + pc.len();
        } else {
            assert(!occurs_at(rest, pc@, 0)) by {
                if occurs_at(rest, pc@, 0) {
                    assert(rest.subrange(0, pc@.len() as int) =~= sc@.subrange(i as int, i + pc@.len()));
                }
            }
            out.push(sc[i]);
            assert(rest.skip(1) =~= sc@.skip(i + 1));
            assert(out@ =~= before + seq![rest[0]]);
            i = i + 1;
        }
    }
    let ghost empty = sc@.skip(i as int);
    assert(empty.len() == 0);
    if pc.len() == 0 {
        append_chars(&mut out, &rc);
    }
    assert(out@ =~= replace_spec(sc@, pc@, rc@));
    string_of(&out)
}


/// The pieces of `s` between occurrences of the separator `c`, as
/// `str::split` with a character pattern gives them: `n` separators give
/// `n + 1` pieces, empty ones included.
pub open spec fn split_spec(s: Seq<char>, c: char) -> Seq<Seq<char>>
    decreases s.len(),
{
    if s.len() == 0 {
        seq![Seq::<char>::empty()]
    } else {
        let init = split_spec(s.drop_last(), c);
        if s.last() == c {
            init.push(Seq::<char>::empty())
        } else {
            init.update(init.len() - 1, init.last().push(s.last()))
        }
    }
}

/// The split of any string has at least one piece.
pub proof fn lemma_split_nonempty(s: Seq<char>, c: char)
    ensures
        split_spec(s, c).len() >= 1,
    decreases s.len(),
{
    if s.len() > 0 {
        lemma_split_nonempty(s.drop_last(), c);
    }
}

/// A string without the separator splits into itself alone.
pub proof fn lemma_split_no_sep(s: Seq<char>, c: char)
    requires
        !s.contains(c),
    ensures
        split_spec(s, c) == seq![s],
    decreases s.len(),
{
    if s.len() == 0 {
        assert(s =~= Seq::<char>::empty());
    } else {
        assert(!s.drop_last().contains(c)) by {
            if s.drop_last().contains(c) {
                let k = choose|k: int| 0 <= k < s.drop_last().len() && s.drop_last()[k] == c;
                assert(s[k] == c);
            }
        }
        lemma_split_no_sep(s.drop_last(), c);
        assert(s.last() != c) by {
            assert(s[s.len() - 1] == s.last());
        }
        assert(s.drop_last().push(s.last()) =~= s);
        assert(split_spec(s, c) =~= seq![s]);
    }
}

/// Splitting `p c q`, where `q` holds no separator, gives the pieces of `p`
/// followed by `q`.
pub proof fn lemma_split_last_sep(p: Seq<char>, c: char, q: Seq<char>)
    requires
        !q.contains(c),
    ensures
        split_spec(p.push(c) + q, c) == split_spec(p, c).push(q),
    decreases q.len(),
{
    let s = p.push(c) + q;
    if q.len() == 0 {
        assert(q =~= Seq::<char>::empty());
        assert(s =~= p.push(c));
        assert(s.drop_last() =~= p);
        assert(s.last() == c);
    } else {
        let q0 = q.drop_last();
        assert(!q0.contains(c)) by {
            if q0.contains(c) {
                let k = choose|k: int| 0 <= k < q0.len() && q0[k] == c;
                assert(q[k] == c);
            }
        }
        lemma_split_last_sep(p, c, q0);
        assert(s.drop_last() =~= p.push(c) + q0);
        assert(s.last() == q.last());
        assert(q.last() != c) by {
            assert(q[q.len() - 1] == q.last());
        }
        assert(q0.push(q.last()) =~= q);
        assert(split_spec(s, c) =~= split_spec(p, c).push(q));
    }
}

/// No piece of a split holds the separator.
pub proof fn lemma_split_pieces_no_sep(s: Seq<char>, c: char)
    ensures
        forall|k: int| 0 <= k < split_spec(s, c).len() ==> !(#[trigger] split_spec(s, c)[k]).contains(c),
    decreases s.len(),
{
    if s.len() > 0 {
        lemma_split_pieces_no_sep(s.drop_last(), c);
        lemma_split_nonempty(s.drop_last(), c);
        let init = split_spec(s.drop_last(), c);
        if s.last() != c {
            let piece = init.last().push(s.last());
            assert(!piece.contains(c)) by {
                if piece.contains(c) {
                    let j = choose|j: int| 0 <= j < piece.len() && piece[j] == c;
                    if j < init.last().len() {
                        assert(init.last()[j] == c);
                        assert(init[init.len() - 1].contains(c));
                    }
                }
            }
        }
        assert forall|k: int| 0 <= k < split_spec(s, c).len() implies !(#[trigger] split_spec(
            s,
            c,
        )[k]).contains(c) by {
            if k < init.len() - 1 {
                assert(split_spec(s, c)[k] == init[k]);
            } else if k == init.len() - 1 && s.last() == c {
                assert(split_spec(s, c)[k] == init[k]);
            }
        }
    }
}

/// `list` joined with `sep` between neighbouring items, as `[T]::join` does.
pub open spec fn join_spec(list: Seq<Seq<char>>, sep: Seq<char>) -> Seq<char>
    decreases list.len(),
{
    if list.len() == 0 {
        Seq::<char>::empty()
    } else if list.len() == 1 {
        list[0]
    } else {
        join_spec(list.drop_last(), sep) + sep + list.last()
    }
}

/// The items of `list` joined with `sep` between neighbours.
pub fn join_strings(list: &Vec<String>, sep: &str) -> (res: String)
    ensures
        res@ == join_spec(list.deep_view(), sep@),
{
    let sepc = chars_of(sep);
    let mut out: Vec<char> = Vec::new();
    let ghost items = list.deep_view();
    let mut i: usize = 0;
    while i < list.len()
        invariant
            i <= list.len(),
            items == list.deep_view(),
            items.len() == list.len(),
            sepc@ == sep@,
            out@ == join_spec(items.take(i as int), sep@),
        decreases list.len() - i,
    {
        let item = chars_of(list[i].as_str());
        if i > 0 {
            append_chars(&mut out, &sepc);
        }
        append_chars(&mut out, &item);
        assert(items[i as int] == list@[i as int]@);
        assert(items.take(i + 1).drop_last() =~= items.take(i as int));
        if i == 0 {
            assert(items.take(1) =~= seq![items[0]]);
        }
        i = i + 1;
    }
    assert(items.take(i as int) =~= items);
    string_of(&out)
}


/// The index of the last `c` in `s` before position `end`, if there is one.
pub fn last_index_before(s: &Vec<char>, c: char, end: usize) -> (res: Option<usize>)
    requires
        end <= s.len(),
    ensures
        match res {
            Some(k) => k < end && s@[k as int] == c && forall|j: int| k < j < end ==> s@[j] != c,
            None => forall|j: int| 0 <= j < end ==> s@[j] != c,
        },
{
    let mut k: usize = end;
    while k > 0
        invariant
            k <= end,
            end <= s.len(),
            forall|j: int| k <= j < end ==> s@[j] != c,
        decreases k,
    {
        if s[k - 1] == c {
            return Some(k - 1);
        }
        k = k - 1;
    }
    None
}

/// The piece just before the last one when `s` is split at `c` (the
/// `len - 2`-th item of `str::split`); `s` must hold at least one `c`.
pub fn second_to_last_piece(s: &Vec<char>, c: char) -> (res: Vec<char>)
    requires
        s@.contains(c),
    ensures
        split_spec(s@, c).len() >= 2,
        res@ == split_spec(s@, c)[split_spec(s@, c).len() - 2],
{
    let ghost sv = s@;
    let j = match last_index_before(s, c, s.len()) {
        Some(j) => j,
        None => {
            proof {
                let k = choose|k: int| 0 <= k < sv.len() && sv[k] == c;
                assert(sv[k] == c);
            }
            return Vec::new();
        }
    };
    let ghost q = sv.subrange(j + 1, sv.len() as int);
    proof {
        assert(!q.contains(c)) by {
            if q.contains(c) {
                let k = choose|k: int| 0 <= k < q.len() && q[k] == c;
                assert(sv[j + 1 + k] == c);
            }
        }
        assert(sv.take(j as int).push(c) + q =~= sv);
        lemma_split_last_sep(sv.take(j as int), c, q);
    }
    let mut out: Vec<char> = Vec::new();
    match last_index_before(s, c, j) {
        Some(i) => {
            let mut k: usize = i + 1;
            while k < j
                invariant
                    i < k <= j,
                    j < s.len(),
                    sv == s@,
                    out@ == sv.subrange(i + 1, k as int),
                decreases j - k,
            {
                out.push(s[k]);
                k = k + 1;
                assert(out@ =~= sv.subrange(i + 1, k as int));
            }
            proof {
                let d = sv.subrange(i + 1, j as int);
                assert(!d.contains(c)) by {
                    if d.contains(c) {
                        let k = choose|k: int| 0 <= k < d.len() && d[k] == c;
                        assert(sv[i + 1 + k] == c);
                    }
                }
                assert(sv.take(i as int).push(c) + d =~= sv.take(j as int));
                lemma_split_last_sep(sv.take(i as int), c, d);
            }
        },
        None => {
            let mut k: usize = 0;
            while k < j
                invariant
                    k <= j,
                    j < s.len(),
                    sv == s@,
                    out@ == sv.subrange(0, k as int),
                decreases j - k,
            {
                out.push(s[k]);
                k = k + 1;
                assert(out@ =~= sv.subrange(0, k as int));
            }
            proof {
                let d = sv.take(j as int);
                assert(!d.contains(c)) by {
                    if d.contains(c) {
                        let k = choose|k: int| 0 <= k < d.len() && d[k] == c;
                        assert(sv[k] == c);
                    }
                }
                lemma_split_no_sep(d, c);
                assert(out@ =~= d);
            }
        },
    }
    out
}


/// The characters that `char::is_whitespace` accepts: those with the Unicode
/// `White_Space` property.
pub open spec fn is_whitespace_spec(c: char) -> bool {
    ||| c == ' '
    ||| ('\u{9}' <= c && c <= '\u{d}')
    ||| c == '\u{85}'
    ||| c == '\u{a0}'
    ||| c == '\u{1680}'
    ||| ('\u{2000}' <= c && c <= '\u{200a}')
    ||| c == '\u{2028}'
    ||| c == '\u{2029}'
    ||| c == '\u{202f}'
    ||| c == '\u{205f}'
    ||| c == '\u{3000}'
}

/// Whether `c` is white space, as `char::is_whitespace`.
pub fn is_whitespace(c: char) -> (res: bool)
    ensures
        res == is_whitespace_spec(c),
{
    c == ' ' || ('\u{9}' <= c && c <= '\u{d}') || c == '\u{85}' || c == '\u{a0}' || c
        == '\u{1680}' || ('\u{2000}' <= c && c <= '\u{200a}') || c == '\u{2028}' || c
        == '\u{2029}' || c == '\u{202f}' || c == '\u{205f}' || c == '\u{3000}'
}

/// `s` without its leading white space.
pub open spec fn trim_start_spec(s: Seq<char>) -> Seq<char>
    decreases s.len(),
{
    if s.len() > 0 && is_whitespace_spec(s[0]) {
        trim_start_spec(s.drop_first())
    } else {
        s
    }
}

/// `s` without its trailing white space.
pub open spec fn trim_end_spec(s: Seq<char>) -> Seq<char>
    decreases s.len(),
{
    if s.len() > 0 && is_whitespace_spec(s.last()) {
        trim_end_spec(s.drop_last())
    } else {
        s
    }
}

/// `s` without leading and trailing white space, as `str::trim` gives it.
pub open spec fn trim_spec(s: Seq<char>) -> Seq<char> {
    trim_end_spec(trim_start_spec(s))
}

proof fn lemma_trim_start_skip(s: Seq<char>, a: int)
    requires
        0 <= a <= s.len(),
        forall|j: int| 0 <= j < a ==> is_whitespace_spec(s[j]),
        a == s.len() || !is_whitespace_spec(s[a]),
    ensures
        trim_start_spec(s) == s.skip(a),
    decreases a,
{
    if a == 0 {
        assert(s.skip(0) =~= s);
    } else {
        let t = s.drop_first();
        assert forall|j: int| 0 <= j < a - 1 implies is_whitespace_spec(t[j]) by {
            assert(t[j] == s[j + 1]);
        }
        if a - 1 < t.len() {
            assert(t[a - 1] == s[a]);
        }
        lemma_trim_start_skip(t, a - 1);
        assert(t.skip(a - 1) =~= s.skip(a));
    }
}

proof fn lemma_trim_end_take(s: Seq<char>, b: int)
    requires
        0 <= b <= s.len(),
        forall|j: int| b <= j < s.len() ==> is_whitespace_spec(s[j]),
        b == 0 || !is_whitespace_spec(s[b - 1]),
    ensures
        trim_end_spec(s) == s.take(b),
    decreases s.len() - b,
{
    if b == s.len() {
        assert(s.take(b) =~= s);
        if s.len() > 0 {
            assert(s.last() == s[b - 1]);
        }
    } else {
        let t = s.drop_last();
        assert(s.last() == s[s.len() - 1]);
        assert forall|j: int| b <= j < t.len() implies is_whitespace_spec(t[j]) by {
            assert(t[j] == s[j]);
        }
        if b > 0 {
            assert(t[b - 1] == s[b - 1]);
        }
        lemma_trim_end_take(t, b);
        assert(t.take(b) =~= s.take(b));
    }
}

/// `s` without leading and trailing white space (`str::trim`).
pub fn trim_chars(s: &Vec<char>) -> (res: Vec<char>)
    ensures
        res@ == trim_spec(s@),
{
    let mut a: usize = 0;
    while a < s.len() && is_whitespace(s[a])
        invariant
            a <= s.len(),
            forall|j: int| 0 <= j < a ==> is_whitespace_spec(s@[j]),
        decreases s.len() - a,
    {
        a = a + 1;
    }
    proof {
        lemma_trim_start_skip(s@, a as int);
    }
    let ghost t = s@.skip(a as int);
    let mut b: usize = s.len();
    while b > a && is_whitespace(s[b - 1])
        invariant
            a <= b <= s.len(),
            forall|j: int| b <= j < s.len() ==> is_whitespace_spec(s@[j]),
        decreases b,
    {
        b = b - 1;
    }
    proof {
        assert forall|j: int| b - a <= j < t.len() implies is_whitespace_spec(t[j]) by {
            assert(t[j] == s@[a + j]);
        }
        if b > a {
            assert(t[b - a - 1] == s@[b - 1]);
        }
        lemma_trim_end_take(t, b - a);
    }
    let mut out: Vec<char> = Vec::new();
    let mut k: usize = a;
    while k < b
        invariant
            a <= k <= b,
            b <= s.len(),
            out@ == s@.subrange(a as int, k as int),
        decreases b - k,
    {
        out.push(s[k]);
        k = k + 1;
        assert(out@ =~= s@.subrange(a as int, k as int));
    }
    assert(out@ =~= t.take(b - a));
    out
}

/// `s` without leading and trailing white space (`str::trim`).
pub fn trim(s: &str) -> (res: String)
    ensures
        res@ == trim_spec(s@),
{
    let cs = chars_of(s);
    let t = trim_chars(&cs);
    string_of(&t)
}

/// What `str::to_lowercase` gives for `s` (Unicode lower-case mapping).
pub uninterp spec fn spec_to_lowercase(s: Seq<char>) -> Seq<char>;

/// Every character of `s` is ASCII.
pub open spec fn is_ascii_seq(s: Seq<char>) -> bool {
    forall|i: int| 0 <= i < s.len() ==> s[i] <= '\u{7f}'
}

/// The ASCII lower case of `c`: `A` to `Z` become `a` to `z`, any other
/// character stays.
pub open spec fn ascii_lower_char(c: char) -> char {
    if c == 'A' {
        'a'
    } else if c == 'B' {
        'b'
    } else if c == 'C' {
        'c'
    } else if c == 'D' {
        'd'
    } else if c == 'E' {
        'e'
    } else if c == 'F' {
        'f'
    } else if c == 'G' {
        'g'
    } else if c == 'H' {
        'h'
    } else if c == 'I' {
        'i'
    } else if c == 'J' {
        'j'
    } else if c == 'K' {
        'k'
    } else if c == 'L' {
        'l'
    } else if c == 'M' {
        'm'
    } else if c == 'N' {
        'n'
    } else if c == 'O' {
        'o'
    } else if c == 'P' {
        'p'
    } else if c == 'Q' {
        'q'
    } else if c == 'R' {
        'r'
    } else if c == 'S' {
        's'
    } else if c == 'T' {
        't'
    } else if c == 'U' {
        'u'
    } else if c == 'V' {
        'v'
    } else if c == 'W' {
        'w'
    } else if c == 'X' {
        'x'
    } else if c == 'Y' {
        'y'
    } else if c == 'Z' {
        'z'
    } else {
        c
    }
}

/// `s` with its ASCII capitals turned into small letters.
pub open spec fn ascii_lower_spec(s: Seq<char>) -> Seq<char> {
    s.map_values(|c: char| ascii_lower_char(c))
}

/// The lower case of `s` as `str::to_lowercase` gives it, with what is known
/// of it written out: on an ASCII string it is the ASCII lower case.
pub open spec fn lower_spec(s: Seq<char>) -> Seq<char> {
    if is_ascii_seq(s) {
        ascii_lower_spec(s)
    } else {
        spec_to_lowercase(s)
    }
}

/// `str::to_lowercase`: `s` under the Unicode lower-case mapping. Its result
/// is named [`spec_to_lowercase`]; the mapping tables are not restated, but
/// on an ASCII string, where the Unicode mapping turns the capitals `A` to
/// `Z` into `a` to `z` and keeps every other character, that is claimed.
#[verifier::external_body]
pub(crate) fn to_lowercase(s: &str) -> (res: String)
    ensures
        res@ == spec_to_lowercase(s@),
        is_ascii_seq(s@) ==> res@ == ascii_lower_spec(s@),
{
    s.to_lowercase()
}

/// A line without the `'\r'` that ended it, if it had one.
pub open spec fn strip_cr(line: Seq<char>) -> Seq<char> {
    if line.len() > 0 && line.last() == '\r' {
        line.drop_last()
    } else {
        line
    }
}

/// The lines of `s` as `str::lines` gives them: the pieces between `'\n'`,
/// each ended by `'\n'` (or `"\r\n"`, whose `'\r'` is dropped too), and a last
/// unterminated piece if it is not empty.
pub open spec fn lines_spec(s: Seq<char>) -> Seq<Seq<char>> {
    let parts = split_spec(s, '\n');
    parts.drop_last().map_values(|l: Seq<char>| strip_cr(l)) + if parts.last().len() > 0 {
        seq![parts.last()]
    } else {
        Seq::<Seq<char>>::empty()
    }
}

/// `line` with a final `'\r'` removed, if it has one.
fn strip_cr_exec(line: Vec<char>) -> (res: Vec<char>)
    ensures
        res@ == strip_cr(line@),
{
    let mut line = line;
    if line.len() > 0 && line[line.len() - 1] == '\r' {
        line.pop();
    }
    line
}

/// A vector of characters reads the same through its deep view as through its view.
pub proof fn lemma_chars_deep_view(v: Vec<char>)
    ensures
        v.deep_view() == v@,
{
    assert(v.deep_view() =~= v@);
}

/// Pushing a vector of characters onto a vector of them extends the deep view.
proof fn lemma_push_deep_view(before: Vec<Vec<char>>, after: Vec<Vec<char>>, item: Vec<char>)
    requires
        after@ == before@.push(item),
    ensures
        after.deep_view() == before.deep_view().push(item@),
{
    lemma_chars_deep_view(item);
    assert(after.deep_view() =~= before.deep_view().push(item@)) by {
        assert forall|k: int| 0 <= k < before@.len() implies after.deep_view()[k]
            == before.deep_view()[k] by {
            assert(after@[k] == before@[k]);
        }
        assert(after@[before@.len() as int] == item);
    }
}

/// The lines of `s` (`str::lines`).
pub fn lines(s: &Vec<char>) -> (res: Vec<Vec<char>>)
    ensures
        res.deep_view() == lines_spec(s@),
{
    let mut done: Vec<Vec<char>> = Vec::new();
    let mut cur: Vec<char> = Vec::new();
    let mut i: usize = 0;
    proof {
        lemma_split_nonempty(s@, '\n');
        assert(s@.take(0) =~= Seq::<char>::empty());
        assert(done.deep_view() =~= Seq::<Seq<char>>::empty());
    }
    while i < s.len()
        invariant
            i <= s.len(),
            split_spec(s@.take(i as int), '\n').len() >= 1,
            done.deep_view() == split_spec(s@.take(i as int), '\n').drop_last().map_values(
                |l: Seq<char>| strip_cr(l),
            ),
            cur@ == split_spec(s@.take(i as int), '\n').last(),
        decreases s.len() - i,
    {
        let ghost prev = split_spec(s@.take(i as int), '\n');
        let ghost done_before = done;
        assert(s@.take(i + 1).drop_last() =~= s@.take(i as int));
        assert(s@.take(i + 1).last() == s@[i as int]);
        if s[i] == '\n' {
            let line = strip_cr_exec(cur);
            let ghost line_copy = line;
            done.push(line);
            cur = Vec::new();
            proof {
                lemma_push_deep_view(done_before, done, line_copy);
                let next = split_spec(s@.take(i + 1), '\n');
                assert(next == prev.push(Seq::<char>::empty()));
                assert(next.drop_last() =~= prev);
                assert(prev.map_values(|l: Seq<char>| strip_cr(l)) =~= prev.drop_last().map_values(
                    |l: Seq<char>| strip_cr(l),
                ).push(strip_cr(prev.last())));
                assert(cur@ =~= next.last());
            }
        } else {
            cur.push(s[i]);
            proof {
                let next = split_spec(s@.take(i + 1), '\n');
                assert(next == prev.update(prev.len() - 1, prev.last().push(s@[i as int])));
                assert(next.drop_last() =~= prev.drop_last());
            }
        }
        i = i + 1;
    }
    assert(s@.take(i as int) =~= s@);
    if cur.len() > 0 {
        let ghost done_before = done;
        let ghost cur_copy = cur;
        done.push(cur);
        proof {
            lemma_push_deep_view(done_before, done, cur_copy);
        }
    }
    assert(done.deep_view() =~= lines_spec(s@));
    done
}

/// The single decimal digit `d` (`0 <= d < 10`) as a character.
pub open spec fn digit_char(d: int) -> char {
    if d == 0 {
        '0'
    } else if d == 1 {
        '1'
    } else if d == 2 {
        '2'
    } else if d == 3 {
        '3'
    } else if d == 4 {
        '4'
    } else if d == 5 {
        '5'
    } else if d == 6 {
        '6'
    } else if d == 7 {
        '7'
    } else if d == 8 {
        '8'
    } else {
        '9'
    }
}

/// The decimal digits of `n`, most significant first, with no leading zero.
pub open spec fn decimal_spec(n: nat) -> Seq<char>
    decreases n,
{
    if n < 10 {
        seq![digit_char(n as int)]
    } else {
        decimal_spec(n / 10).push(digit_char((n % 10) as int))
    }
}

/// How `i32`'s `to_string` writes `n`: a `'-'` before the digits of a negative
/// number.
pub open spec fn signed_decimal_spec(n: int) -> Seq<char> {
    if n < 0 {
        seq!['-'] + decimal_spec((-n) as nat)
    } else {
        decimal_spec(n as nat)
    }
}

fn digit_exec(d: u64) -> (res: char)
    requires
        d < 10,
    ensures
        res == digit_char(d as int),
{
    if d == 0 {
        '0'
    } else if d == 1 {
        '1'
    } else if d == 2 {
        '2'
    } else if d == 3 {
        '3'
    } else if d == 4 {
        '4'
    } else if d == 5 {
        '5'
    } else if d == 6 {
        '6'
    } else if d == 7 {
        '7'
    } else if d == 8 {
        '8'
    } else {
        '9'
    }
}

/// The decimal digits of `n`.
pub fn decimal_chars(n: u64) -> (res: Vec<char>)
    ensures
        res@ == decimal_spec(n as nat),
    decreases n,
{
    if n < 10 {
        let mut v: Vec<char> = Vec::new();
        v.push(digit_exec(n));
        assert(v@ =~= seq![digit_char(n as int)]);
        v
    } else {
        let mut v = decimal_chars(n / 10);
        v.push(digit_exec(n % 10));
        v
    }
}

/// `n` written in decimal, as `u64::to_string` writes it.
pub fn decimal_string(n: u64) -> (res: String)
    ensures
        res@ == decimal_spec(n as nat),
{
    let v = decimal_chars(n);
    string_of(&v)
}

/// `n` written in decimal, as `i32::to_string` writes it.
pub fn signed_decimal_string(n: i32) -> (res: String)
    ensures
        res@ == signed_decimal_spec(n as int),
{
    if n < 0 {
        let m: i64 = n as i64;
        let abs: u64 = (-m) as u64;
        let digits = decimal_chars(abs);
        let mut v: Vec<char> = Vec::new();
        v.push('-');
        append_chars(&mut v, &digits);
        assert(v@ =~= seq!['-'] + decimal_spec((-(n as int)) as nat));
        string_of(&v)
    } else {
        let v = decimal_chars(n as u64);
        string_of(&v)
    }
}


/// Splitting at `c` undoes joining with `c`: a non-empty list of pieces that
/// hold no `c`, joined with `c` between them, splits back into the same pieces.
pub proof fn law_split_join(parts: Seq<Seq<char>>, c: char)
    requires
        parts.len() >= 1,
        forall|k: int| 0 <= k < parts.len() ==> !(#[trigger] parts[k]).contains(c),
    ensures
        split_spec(join_spec(parts, seq![c]), c) == parts,
    decreases parts.len(),
{
    if parts.len() == 1 {
        lemma_split_no_sep(parts[0], c);
        assert(seq![parts[0]] =~= parts);
    } else {
        let init = parts.drop_last();
        assert forall|k: int| 0 <= k < init.len() implies !(#[trigger] init[k]).contains(c) by {
            assert(init[k] == parts[k]);
        }
        law_split_join(init, c);
        assert(!parts.last().contains(c)) by {
            assert(parts[parts.len() - 1] == parts.last());
        }
        assert(join_spec(init, seq![c]) + seq![c] + parts.last() =~= join_spec(init, seq![c]).push(c)
            + parts.last());
        lemma_split_last_sep(join_spec(init, seq![c]), c, parts.last());
        assert(init.push(parts.last()) =~= parts);
    }
}


/// Replacing a pattern that does not occur leaves the string as it is (for a
/// non-empty pattern; the empty pattern occurs everywhere).
pub proof fn law_replace_absent(s: Seq<char>, pat: Seq<char>, rep: Seq<char>)
    requires
        pat.len() > 0,
        !contains_seq(s, pat),
    ensures
        replace_spec(s, pat, rep) == s,
    decreases s.len(),
{
    if s.len() > 0 {
        assert(!occurs_at(s, pat, 0));
        let t = s.skip(1);
        assert(!contains_seq(t, pat)) by {
            if contains_seq(t, pat) {
                let i = choose|i: int| occurs_at(t, pat, i);
                assert(s.subrange(i + 1, i + 1 + pat.len()) =~= t.subrange(i, i + pat.len()));
                assert(occurs_at(s, pat, i + 1));
            }
        }
        law_replace_absent(t, pat, rep);
        assert(seq![s[0]] + t =~= s);
    }
}

/// The value of a decimal digit character.
pub open spec fn digit_value(c: char) -> int {
    if c == '1' {
        1
    } else if c == '2' {
        2
    } else if c == '3' {
        3
    } else if c == '4' {
        4
    } else if c == '5' {
        5
    } else if c == '6' {
        6
    } else if c == '7' {
        7
    } else if c == '8' {
        8
    } else if c == '9' {
        9
    } else {
        0
    }
}

/// The number that a string of decimal digits writes.
pub open spec fn decimal_value(s: Seq<char>) -> int
    decreases s.len(),
{
    if s.len() == 0 {
        0
    } else {
        decimal_value(s.drop_last()) * 10 + digit_value(s.last())
    }
}

/// A digit character reads back as its digit.
proof fn lemma_digit_roundtrip(k: int)
    requires
        0 <= k < 10,
    ensures
        digit_value(digit_char(k)) == k,
{
}

/// Written in decimal, a number reads back as itself.
pub proof fn law_decimal_reads_back(n: nat)
    ensures
        decimal_value(decimal_spec(n)) == n,
    decreases n,
{
    if n < 10 {
        let d = decimal_spec(n);
        lemma_digit_roundtrip(n as int);
        assert(d.drop_last() =~= Seq::<char>::empty());
        assert(d.last() == digit_char(n as int));
        assert(decimal_value(d.drop_last()) == 0);
        assert(decimal_value(d) == decimal_value(d.drop_last()) * 10 + digit_value(d.last()));
    } else {
        law_decimal_reads_back(n / 10);
        let d = decimal_spec(n);
        assert(d.drop_last() =~= decimal_spec(n / 10));
        assert(d.last() == digit_char((n % 10) as int));
        lemma_digit_roundtrip((n % 10) as int);
        assert((n / 10) * 10 + n % 10 == n) by (nonlinear_arith);
        assert(decimal_value(d) == decimal_value(d.drop_last()) * 10 + digit_value(d.last()));
    }
}


proof fn lemma_trim_start_first(s: Seq<char>)
    ensures
        trim_start_spec(s).len() == 0 || !is_whitespace_spec(trim_start_spec(s)[0]),
    decreases s.len(),
{
    if s.len() > 0 && is_whitespace_spec(s[0]) {
        lemma_trim_start_first(s.drop_first());
    }
}

proof fn lemma_trim_end_prefix(s: Seq<char>)
    ensures
        trim_end_spec(s).len() <= s.len(),
        trim_end_spec(s) == s.take(trim_end_spec(s).len() as int),
        trim_end_spec(s).len() == 0 || !is_whitespace_spec(trim_end_spec(s).last()),
    decreases s.len(),
{
    if s.len() > 0 && is_whitespace_spec(s.last()) {
        lemma_trim_end_prefix(s.drop_last());
        let t = trim_end_spec(s.drop_last());
        assert(s.drop_last().take(t.len() as int) =~= s.take(t.len() as int));
    } else {
        assert(s.take(s.len() as int) =~= s);
    }
}

/// Trimming a trimmed string changes nothing.
pub proof fn law_trim_idempotent(s: Seq<char>)
    ensures
        trim_spec(trim_spec(s)) == trim_spec(s),
{
    let u = trim_start_spec(s);
    lemma_trim_start_first(s);
    lemma_trim_end_prefix(u);
    let t = trim_end_spec(u);
    if t.len() > 0 {
        assert(t[0] == u[0]);
        assert(trim_start_spec(t) == t);
        assert(t.last() == t[t.len() - 1]);
        assert(trim_end_spec(t) == t);
    } else {
        assert(trim_start_spec(t) == t);
        assert(trim_end_spec(t) == t);
    }
}


/// Trimming cuts off white space only at the ends: the result is the piece of
/// `s` between `a` and `b`, everything before `a` and from `b` on is white
/// space, and the result neither starts nor ends with white space.
pub proof fn law_trim_cuts_white_space(s: Seq<char>) -> (ab: (int, int))
    ensures
        0 <= ab.0 <= ab.1 <= s.len(),
        trim_spec(s) == s.subrange(ab.0, ab.1),
        forall|i: int| 0 <= i < ab.0 ==> is_whitespace_spec(#[trigger] s[i]),
        forall|i: int| ab.1 <= i < s.len() ==> is_whitespace_spec(#[trigger] s[i]),
        trim_spec(s).len() > 0 ==> !is_whitespace_spec(trim_spec(s)[0]) && !is_whitespace_spec(
            trim_spec(s).last(),
        ),
{
    let a = first_non_white(s, 0);
    lemma_trim_start_skip(s, a);
    let u = s.skip(a);
    let b = last_non_white_end(u, u.len() as int);
    assert forall|j: int| b <= j < u.len() implies is_whitespace_spec(u[j]) by {}
    lemma_trim_end_take(u, b);
    assert(u.take(b) =~= s.subrange(a, a + b));
    assert forall|i: int| a + b <= i < s.len() implies is_whitespace_spec(#[trigger] s[i]) by {
        assert(s[i] == u[i - a]);
    }
    if b > 0 {
        assert(s.subrange(a, a + b)[0] == s[a]);
        assert(s.subrange(a, a + b).last() == s[a + b - 1]);
        assert(u[b - 1] == s[a + b - 1]);
    }
    (a, a + b)
}

/// The first index from `i` on that holds no white space (or the length).
proof fn first_non_white(s: Seq<char>, i: int) -> (a: int)
    requires
        0 <= i <= s.len(),
        forall|j: int| 0 <= j < i ==> is_whitespace_spec(s[j]),
    ensures
        i <= a <= s.len(),
        forall|j: int| 0 <= j < a ==> is_whitespace_spec(s[j]),
        a == s.len() || !is_whitespace_spec(s[a]),
    decreases s.len() - i,
{
    if i == s.len() || !is_whitespace_spec(s[i]) {
        i
    } else {
        first_non_white(s, i + 1)
    }
}

/// The end of the last character before `b` that is not white space (or 0).
proof fn last_non_white_end(s: Seq<char>, b: int) -> (e: int)
    requires
        0 <= b <= s.len(),
        forall|j: int| b <= j < s.len() ==> is_whitespace_spec(s[j]),
    ensures
        0 <= e <= b,
        forall|j: int| e <= j < s.len() ==> is_whitespace_spec(s[j]),
        e == 0 || !is_whitespace_spec(s[e - 1]),
    decreases b,
{
    if b == 0 || !is_whitespace_spec(s[b - 1]) {
        b
    } else {
        last_non_white_end(s, b - 1)
    }
}

/// Joining the pieces of a split with the separator gives the string back.
pub proof fn law_join_split(s: Seq<char>, c: char)
    ensures
        join_spec(split_spec(s, c), seq![c]) == s,
    decreases s.len(),
{
    if s.len() > 0 {
        let init = s.drop_last();
        law_join_split(init, c);
        lemma_split_nonempty(init, c);
        let parts = split_spec(init, c);
        if s.last() == c {
            let next = parts.push(Seq::<char>::empty());
            assert(next.drop_last() =~= parts);
            assert(join_spec(next, seq![c]) =~= init + seq![c]);
            assert(init.push(c) =~= s);
        } else {
            let next = parts.update(parts.len() - 1, parts.last().push(s.last()));
            lemma_join_update_last(parts, c, s.last());
            assert(init.push(s.last()) =~= s);
        }
    }
}

/// Adding a character to the last piece adds it to the end of the join.
proof fn lemma_join_update_last(parts: Seq<Seq<char>>, c: char, x: char)
    requires
        parts.len() >= 1,
    ensures
        join_spec(parts.update(parts.len() - 1, parts.last().push(x)), seq![c]) == join_spec(
            parts,
            seq![c],
        ).push(x),
{
    let next = parts.update(parts.len() - 1, parts.last().push(x));
    if parts.len() == 1 {
        assert(next[0] == parts[0].push(x));
    } else {
        assert(next.drop_last() =~= parts.drop_last());
        assert(next.last() == parts.last().push(x));
        assert(join_spec(parts.drop_last(), seq![c]) + seq![c] + parts.last().push(x) =~= (join_spec(
            parts.drop_last(),
            seq![c],
        ) + seq![c] + parts.last()).push(x));
    }
}

/// Replacing a non-empty pattern by itself changes nothing.
pub proof fn law_replace_by_itself(s: Seq<char>, pat: Seq<char>)
    requires
        pat.len() > 0,
    ensures
        replace_spec(s, pat, pat) == s,
    decreases s.len(),
{
    if s.len() > 0 {
        if occurs_at(s, pat, 0) {
            law_replace_by_itself(s.skip(pat.len() as int), pat);
            assert(pat + s.skip(pat.len() as int) =~= s);
        } else {
            law_replace_by_itself(s.skip(1), pat);
            assert(seq![s[0]] + s.skip(1) =~= s);
        }
    }
}

/// A number is written with digits only, and with no leading zero unless it
/// is zero itself.
pub proof fn law_decimal_digits(n: nat)
    ensures
        decimal_spec(n).len() > 0,
        forall|i: int|
            0 <= i < decimal_spec(n).len() ==> '0' <= #[trigger] decimal_spec(n)[i] <= '9',
        decimal_spec(n)[0] == '0' ==> n == 0,
    decreases n,
{
    if n >= 10 {
        law_decimal_digits(n / 10);
        let d = decimal_spec(n);
        assert(d == decimal_spec(n / 10).push(digit_char((n % 10) as int)));
        assert(d[0] == decimal_spec(n / 10)[0]);
    }
}

} // verus!
