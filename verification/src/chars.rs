//! Character-sequence utilities: the statement dialect is parsed over
//! `Vec<char>`, and every helper here carries an exact specification over
//! `Seq<char>`.

use vstd::prelude::*;

verus! {

/// The characters `char::is_whitespace` recognises.
pub open spec fn is_ws(c: char) -> bool {
    c == ' ' || c == '\t' || c == '\n' || c == '\r' || c == '\u{000B}' || c == '\u{000C}'
        || c == '\u{0085}' || c == '\u{00A0}' || c == '\u{1680}'
        || ('\u{2000}' <= c && c <= '\u{200A}') || c == '\u{2028}' || c == '\u{2029}'
        || c == '\u{202F}' || c == '\u{205F}' || c == '\u{3000}'
}

pub fn is_ws_char(c: char) -> (r: bool)
    ensures
        r == is_ws(c),
{
    c == ' ' || c == '\t' || c == '\n' || c == '\r' || c == '\u{000B}' || c == '\u{000C}'
        || c == '\u{0085}' || c == '\u{00A0}' || c == '\u{1680}'
        || ('\u{2000}' <= c && c <= '\u{200A}') || c == '\u{2028}' || c == '\u{2029}'
        || c == '\u{202F}' || c == '\u{205F}' || c == '\u{3000}'
}

/// ASCII upper-casing of one character, as the dialect's keywords are ASCII.
pub open spec fn upper_char(c: char) -> char {
    if 'a' <= c && c <= 'z' {
        ((c as u8) - 32) as char
    } else {
        c
    }
}

pub open spec fn lower_char(c: char) -> char {
    if 'A' <= c && c <= 'Z' {
        ((c as u8) + 32) as char
    } else {
        c
    }
}

pub open spec fn upper_seq(s: Seq<char>) -> Seq<char> {
    Seq::new(s.len(), |i: int| upper_char(s[i]))
}

pub open spec fn lower_seq(s: Seq<char>) -> Seq<char> {
    Seq::new(s.len(), |i: int| lower_char(s[i]))
}

pub fn upper_char_exec(c: char) -> (r: char)
    ensures
        r == upper_char(c),
{
    if 'a' <= c && c <= 'z' {
        ((c as u8) - 32) as char
    } else {
        c
    }
}

pub fn lower_char_exec(c: char) -> (r: char)
    ensures
        r == lower_char(c),
{
    if 'A' <= c && c <= 'Z' {
        ((c as u8) + 32) as char
    } else {
        c
    }
}

pub fn to_upper(s: &Vec<char>) -> (r: Vec<char>)
    ensures
        r@ == upper_seq(s@),
{
    let mut r: Vec<char> = Vec::new();
    let mut i: usize = 0;
    while i < s.len()
        invariant
            i <= s.len(),
            r@ == upper_seq(s@).take(i as int),
        decreases s.len() - i,
    {
        r.push(upper_char_exec(s[i]));
        i += 1;
        assert(r@ =~= upper_seq(s@).take(i as int));
    }
    assert(r@ =~= upper_seq(s@));
    r
}

pub fn to_lower(s: &Vec<char>) -> (r: Vec<char>)
    ensures
        r@ == lower_seq(s@),
{
    let mut r: Vec<char> = Vec::new();
    let mut i: usize = 0;
    while i < s.len()
        invariant
            i <= s.len(),
            r@ == lower_seq(s@).take(i as int),
        decreases s.len() - i,
    {
        r.push(lower_char_exec(s[i]));
        i += 1;
        assert(r@ =~= lower_seq(s@).take(i as int));
    }
    assert(r@ =~= lower_seq(s@));
    r
}

/// The needle `n` occurs in `h` starting at position `i`.
pub open spec fn match_at(h: Seq<char>, n: Seq<char>, i: int) -> bool {
    &&& 0 <= i
    &&& i + n.len() <= h.len()
    &&& forall|j: int| 0 <= j < n.len() ==> h[i + j] == n[j]
}

/// The needle `n` occurs somewhere in `h`.
pub open spec fn has_sub(h: Seq<char>, n: Seq<char>) -> bool {
    exists|i: int| match_at(h, n, i)
}

/// The first occurrence of `n` in `h` at or after `i`, if any.
pub open spec fn find_from(h: Seq<char>, n: Seq<char>, i: int) -> Option<int>
    decreases h.len() - i,
{
    if i < 0 || i + n.len() > h.len() {
        None
    } else if match_at(h, n, i) {
        Some(i)
    } else {
        find_from(h, n, i + 1)
    }
}

pub proof fn lemma_find_from(h: Seq<char>, n: Seq<char>, i: int)
    requires
        0 <= i,
    ensures
        match find_from(h, n, i) {
            Some(j) => i <= j && match_at(h, n, j) && forall|k: int|
                i <= k < j ==> !match_at(h, n, k),
            None => forall|k: int| i <= k ==> !match_at(h, n, k),
        },
    decreases h.len() - i,
{
    if i + n.len() > h.len() {
        assert forall|k: int| i <= k implies !match_at(h, n, k) by {}
    } else if match_at(h, n, i) {
    } else {
        lemma_find_from(h, n, i + 1);
    }
}

pub proof fn lemma_find_from_zero(h: Seq<char>, n: Seq<char>)
    ensures
        find_from(h, n, 0) is Some <==> has_sub(h, n),
{
    lemma_find_from(h, n, 0);
    if has_sub(h, n) {
        let w = choose|i: int| match_at(h, n, i);
        if find_from(h, n, 0) is None {
            assert(!match_at(h, n, w));
        }
    }
}

/// Whether `n` occurs in `h` at position `i`, tested executably.
pub fn match_at_exec(h: &Vec<char>, n: &Vec<char>, i: usize) -> (r: bool)
    requires
        i <= h@.len(),
    ensures
        r == match_at(h@, n@, i as int),
{
    if n.len() > h.len() - i {
        return false;
    }
    let hl = h.len();
    let mut j: usize = 0;
    while j < n.len()
        invariant
            0 <= j <= n@.len(),
            i + n@.len() <= h@.len(),
            hl == h@.len(),
            forall|k: int| 0 <= k < j ==> h@[i + k] == n@[k],
        decreases n.len() - j,
    {
        if h[i + j] != n[j] {
            return false;
        }
        j += 1;
    }
    true
}

pub fn find_sub_from(h: &Vec<char>, n: &Vec<char>, start: usize) -> (r: Option<usize>)
    ensures
        match r {
            Some(j) => start <= j && Some(j as int) == find_from(h@, n@, start as int),
            None => find_from(h@, n@, start as int) is None,
        },
{
    let mut i: usize = start;
    if n.len() > h.len() || start > h.len() - n.len() {
        proof {
            lemma_find_none_when_short(h@, n@, start as int);
        }
        return None;
    }
    while i <= h.len() - n.len()
        invariant
            start <= i,
            n@.len() <= h@.len(),
            i <= h@.len(),
            find_from(h@, n@, start as int) == find_from(h@, n@, i as int),
        decreases h.len() - i,
    {
        if match_at_exec(h, n, i) {
            return Some(i);
        }
        i += 1;
    }
    proof {
        lemma_find_none_when_short(h@, n@, i as int);
    }
    None
}

proof fn lemma_find_none_when_short(h: Seq<char>, n: Seq<char>, i: int)
    requires
        i + n.len() > h.len() || i < 0,
    ensures
        find_from(h, n, i) is None,
{
}

pub fn find_sub(h: &Vec<char>, n: &Vec<char>) -> (r: Option<usize>)
    ensures
        match r {
            Some(j) => Some(j as int) == find_from(h@, n@, 0),
            None => find_from(h@, n@, 0) is None,
        },
{
    find_sub_from(h, n, 0)
}

pub fn contains_sub(h: &Vec<char>, n: &Vec<char>) -> (r: bool)
    ensures
        r == has_sub(h@, n@),
{
    proof {
        lemma_find_from_zero(h@, n@);
    }
    find_sub(h, n).is_some()
}

/// Sequence equality of two character vectors.
pub fn seq_eq(a: &Vec<char>, b: &Vec<char>) -> (r: bool)
    ensures
        r == (a@ == b@),
{
    if a.len() != b.len() {
        return false;
    }
    let mut i: usize = 0;
    while i < a.len()
        invariant
            i <= a@.len(),
            a@.len() == b@.len(),
            forall|k: int| 0 <= k < i ==> a@[k] == b@[k],
        decreases a.len() - i,
    {
        if a[i] != b[i] {
            return false;
        }
        i += 1;
    }
    proof {
        assert(a@ =~= b@);
    }
    true
}

pub fn starts_with(h: &Vec<char>, n: &Vec<char>) -> (r: bool)
    ensures
        r == match_at(h@, n@, 0),
{
    match_at_exec(h, n, 0)
}

/// Copy of a subrange of a character vector.
pub fn subrange_vec(s: &Vec<char>, from: usize, to: usize) -> (r: Vec<char>)
    requires
        from <= to <= s@.len(),
    ensures
        r@ == s@.subrange(from as int, to as int),
{
    let mut r: Vec<char> = Vec::new();
    let mut i: usize = from;
    while i < to
        invariant
            from <= i <= to <= s@.len(),
            r@ == s@.subrange(from as int, i as int),
        decreases to - i,
    {
        r.push(s[i]);
        i += 1;
        assert(r@ =~= s@.subrange(from as int, i as int));
    }
    r
}

pub fn concat_vec(a: &Vec<char>, b: &Vec<char>) -> (r: Vec<char>)
    ensures
        r@ == a@ + b@,
{
    let mut r: Vec<char> = Vec::new();
    let mut i: usize = 0;
    while i < a.len()
        invariant
            i <= a@.len(),
            r@ == a@.take(i as int),
        decreases a.len() - i,
    {
        r.push(a[i]);
        i += 1;
        assert(r@ =~= a@.take(i as int));
    }
    let mut j: usize = 0;
    while j < b.len()
        invariant
            j <= b@.len(),
            r@ == a@ + b@.take(j as int),
        decreases b.len() - j,
    {
        r.push(b[j]);
        j += 1;
        assert(r@ =~= a@ + b@.take(j as int));
    }
    assert(a@ + b@.take(b@.len() as int) =~= a@ + b@);
    r
}

pub fn push_all(dst: &mut Vec<char>, src: &Vec<char>)
    ensures
        final(dst)@ == old(dst)@ + src@,
{
    let ghost d0 = dst@;
    let mut j: usize = 0;
    while j < src.len()
        invariant
            j <= src@.len(),
            dst@ == d0 + src@.take(j as int),
        decreases src.len() - j,
    {
        dst.push(src[j]);
        j += 1;
        assert(dst@ =~= d0 + src@.take(j as int));
    }
    assert(d0 + src@.take(src@.len() as int) =~= d0 + src@);
}

/// First whitespace position at or after `i` (or the end).
pub open spec fn word_end(s: Seq<char>, i: int) -> int
    decreases s.len() - i when 0 <= i <= s.len()
{
    if i >= s.len() {
        i
    } else if is_ws(s[i]) {
        i
    } else {
        word_end(s, i + 1)
    }
}

pub proof fn lemma_word_end(s: Seq<char>, i: int)
    requires
        0 <= i <= s.len(),
    ensures
        i <= word_end(s, i) <= s.len(),
        forall|j: int| i <= j < word_end(s, i) ==> !is_ws(s[j]),
        word_end(s, i) < s.len() ==> is_ws(s[word_end(s, i)]),
        i < s.len() && !is_ws(s[i]) ==> word_end(s, i) >= i + 1,
    decreases s.len() - i,
{
    if i < s.len() && !is_ws(s[i]) {
        lemma_word_end(s, i + 1);
    }
}

/// First non-whitespace position at or after `i` (or the end).
pub open spec fn skip_ws(s: Seq<char>, i: int) -> int
    decreases s.len() - i when 0 <= i <= s.len()
{
    if i >= s.len() {
        i
    } else if is_ws(s[i]) {
        skip_ws(s, i + 1)
    } else {
        i
    }
}

pub proof fn lemma_skip_ws(s: Seq<char>, i: int)
    requires
        0 <= i <= s.len(),
    ensures
        i <= skip_ws(s, i) <= s.len(),
        forall|j: int| i <= j < skip_ws(s, i) ==> is_ws(s[j]),
        skip_ws(s, i) < s.len() ==> !is_ws(s[skip_ws(s, i)]),
    decreases s.len() - i,
{
    if i < s.len() && is_ws(s[i]) {
        lemma_skip_ws(s, i + 1);
    }
}

/// The whitespace-separated tokens of `s`, from position `i` on.
pub open spec fn tokens_from(s: Seq<char>, i: int) -> Seq<Seq<char>>
    decreases s.len() - i when 0 <= i <= s.len() via tokens_from_dec
{
    if i >= s.len() {
        Seq::empty()
    } else if is_ws(s[i]) {
        tokens_from(s, i + 1)
    } else {
        seq![s.subrange(i, word_end(s, i))] + tokens_from(s, word_end(s, i))
    }
}

#[via_fn]
proof fn tokens_from_dec(s: Seq<char>, i: int) {
    if 0 <= i <= s.len() && i < s.len() && !is_ws(s[i]) {
        lemma_word_end(s, i);
    }
}

pub open spec fn tokens(s: Seq<char>) -> Seq<Seq<char>> {
    tokens_from(s, 0)
}

/// The views of a vector of character vectors.
pub open spec fn views(ts: Seq<Vec<char>>) -> Seq<Seq<char>> {
    ts.map_values(|t: Vec<char>| t@)
}

pub fn tokenize(s: &Vec<char>) -> (r: Vec<Vec<char>>)
    ensures
        views(r@) == tokens(s@),
{
    let mut r: Vec<Vec<char>> = Vec::new();
    let mut i: usize = 0;
    assert(views(r@) =~= Seq::<Seq<char>>::empty());
    while i < s.len()
        invariant
            0 <= i <= s@.len(),
            views(r@) + tokens_from(s@, i as int) == tokens(s@),
        decreases s.len() - i,
    {
        if is_ws_char(s[i]) {
            i += 1;
        } else {
            let start = i;
            let mut j = i;
            while j < s.len() && !is_ws_char(s[j])
                invariant
                    start <= j <= s@.len(),
                    word_end(s@, start as int) == word_end(s@, j as int),
                decreases s.len() - j,
            {
                proof {
                    assert(word_end(s@, j as int) == word_end(s@, j + 1));
                }
                j += 1;
            }
            assert(word_end(s@, j as int) == j);
            let w = subrange_vec(s, start, j);
            let ghost r0 = r@;
            r.push(w);
            proof {
                assert(views(r@) =~= views(r0).push(w@));
                assert(views(r0).push(w@) + tokens_from(s@, j as int) =~= views(r0) + (seq![
                    s@.subrange(start as int, j as int),
                ] + tokens_from(s@, j as int)));
            }
            i = j;
        }
    }
    assert(views(r@) =~= tokens(s@));
    r
}

/// `parts` joined with the separator `sep` between elements.
pub open spec fn join_with(parts: Seq<Seq<char>>, sep: Seq<char>) -> Seq<char>
    decreases parts.len(),
{
    if parts.len() == 0 {
        Seq::empty()
    } else if parts.len() == 1 {
        parts[0]
    } else {
        parts[0] + sep + join_with(parts.drop_first(), sep)
    }
}

pub proof fn lemma_join_snoc(parts: Seq<Seq<char>>, x: Seq<char>, sep: Seq<char>)
    ensures
        join_with(parts.push(x), sep) == if parts.len() == 0 {
            x
        } else {
            join_with(parts, sep) + sep + x
        },
    decreases parts.len(),
{
    if parts.len() == 0 {
        assert(parts.push(x)[0] == x);
    } else {
        assert(parts.push(x).drop_first() =~= parts.drop_first().push(x));
        lemma_join_snoc(parts.drop_first(), x, sep);
        if parts.len() == 1 {
            assert(parts.push(x)[0] == parts[0]);
            assert(join_with(parts.push(x), sep) == parts[0] + sep + x);
        }
    }
}

pub fn join_all(parts: &Vec<Vec<char>>, sep: &Vec<char>) -> (r: Vec<char>)
    ensures
        r@ == join_with(views(parts@), sep@),
{
    let mut r: Vec<char> = Vec::new();
    let mut i: usize = 0;
    while i < parts.len()
        invariant
            0 <= i <= parts@.len(),
            r@ == join_with(views(parts@).take(i as int), sep@),
        decreases parts.len() - i,
    {
        if i > 0 {
            push_all(&mut r, sep);
        }
        push_all(&mut r, &parts[i]);
        proof {
            let vs = views(parts@);
            assert(vs.take(i as int).push(vs[i as int]) =~= vs.take(i + 1));
            lemma_join_snoc(vs.take(i as int), vs[i as int], sep@);
        }
        i += 1;
    }
    assert(views(parts@).take(parts@.len() as int) =~= views(parts@));
    r
}

/// `s` with every occurrence of `pat` replaced by `rep`, left to right and
/// without overlap, scanning from position `i`.
pub open spec fn replace_from(s: Seq<char>, pat: Seq<char>, rep: Seq<char>, i: int) -> Seq<char>
    decreases s.len() - i when 0 <= i && 1 <= pat.len()
{
    if i + pat.len() <= s.len() && match_at(s, pat, i) {
        rep + replace_from(s, pat, rep, i + pat.len())
    } else if i < s.len() {
        seq![s[i]] + replace_from(s, pat, rep, i + 1)
    } else {
        Seq::empty()
    }
}

pub open spec fn replace_all(s: Seq<char>, pat: Seq<char>, rep: Seq<char>) -> Seq<char> {
    replace_from(s, pat, rep, 0)
}

pub fn replace(s: &Vec<char>, pat: &Vec<char>, rep: &Vec<char>) -> (r: Vec<char>)
    requires
        pat@.len() >= 1,
    ensures
        r@ == replace_all(s@, pat@, rep@),
{
    let mut out: Vec<char> = Vec::new();
    let mut i: usize = 0;
    while i < s.len()
        invariant
            0 <= i <= s@.len(),
            pat@.len() >= 1,
            out@ + replace_from(s@, pat@, rep@, i as int) == replace_all(s@, pat@, rep@),
        decreases s.len() - i,
    {
        if pat.len() <= s.len() - i && match_at_exec(s, pat, i) {
            push_all(&mut out, rep);
            i += pat.len();
        } else {
            out.push(s[i]);
            i += 1;
        }
    }
    assert(out@ =~= out@ + replace_from(s@, pat@, rep@, i as int));
    out
}

/// The pieces of `s` split on the separator `pat`, scanning from `i`;
/// empty pieces are kept, as `str::split` keeps them.
pub open spec fn split_from(s: Seq<char>, pat: Seq<char>, i: int) -> Seq<Seq<char>>
    decreases s.len() - i when 0 <= i <= s.len() && 1 <= pat.len() via split_from_dec
{
    match find_from(s, pat, i) {
        Option::None => seq![s.subrange(i, s.len() as int)],
        Option::Some(j) => seq![s.subrange(i, j)] + split_from(s, pat, j + pat.len()),
    }
}

#[via_fn]
proof fn split_from_dec(s: Seq<char>, pat: Seq<char>, i: int) {
    if 0 <= i <= s.len() && 1 <= pat.len() {
        lemma_find_from(s, pat, i);
    }
}

pub open spec fn split_on(s: Seq<char>, pat: Seq<char>) -> Seq<Seq<char>> {
    split_from(s, pat, 0)
}

pub fn split_all(s: &Vec<char>, pat: &Vec<char>) -> (r: Vec<Vec<char>>)
    requires
        pat@.len() >= 1,
    ensures
        views(r@) == split_on(s@, pat@),
{
    let mut r: Vec<Vec<char>> = Vec::new();
    let mut i: usize = 0;
    loop
        invariant
            0 <= i <= s@.len(),
            pat@.len() >= 1,
            views(r@) + split_from(s@, pat@, i as int) == split_on(s@, pat@),
        decreases s@.len() - i,
    {
        proof {
            lemma_find_from(s@, pat@, i as int);
        }
        let ghost r0 = r@;
        let sl = s.len();
        match find_sub_from(s, pat, i) {
            Some(j) => {
                assert(match_at(s@, pat@, j as int));
                assert(j + pat@.len() <= sl);
                let piece = subrange_vec(s, i, j);
                r.push(piece);
                proof {
                    assert(views(r@) =~= views(r0).push(s@.subrange(i as int, j as int)));
                    assert(views(r0).push(s@.subrange(i as int, j as int)) + split_from(
                        s@,
                        pat@,
                        j + pat@.len(),
                    ) =~= views(r0) + (seq![s@.subrange(i as int, j as int)] + split_from(
                        s@,
                        pat@,
                        j + pat@.len(),
                    )));
                }
                i = j + pat.len();
            },
            None => {
                let piece = subrange_vec(s, i, s.len());
                r.push(piece);
                proof {
                    assert(views(r@) =~= views(r0).push(s@.subrange(i as int, s@.len() as int)));
                    assert(views(r0).push(s@.subrange(i as int, s@.len() as int)) =~= views(r0)
                        + seq![s@.subrange(i as int, s@.len() as int)]);
                    assert(views(r@) =~= split_on(s@, pat@));
                }
                return r;
            },
        }
    }
}

/// Last position `b <= j` such that everything in `[b, j)` is whitespace.
pub open spec fn rstrip_ws(s: Seq<char>, j: int) -> int
    decreases j when 0 <= j <= s.len()
{
    if j > 0 && is_ws(s[j - 1]) {
        rstrip_ws(s, j - 1)
    } else {
        j
    }
}

pub proof fn lemma_rstrip_ws(s: Seq<char>, j: int)
    requires
        0 <= j <= s.len(),
    ensures
        0 <= rstrip_ws(s, j) <= j,
        forall|m: int| rstrip_ws(s, j) <= m < j ==> is_ws(s[m]),
        rstrip_ws(s, j) > 0 ==> !is_ws(s[rstrip_ws(s, j) - 1]),
    decreases j,
{
    if j > 0 && is_ws(s[j - 1]) {
        lemma_rstrip_ws(s, j - 1);
    }
}

/// `s` with leading and trailing whitespace removed.
pub open spec fn trim_seq(s: Seq<char>) -> Seq<char> {
    let a = skip_ws(s, 0);
    if a == s.len() {
        Seq::empty()
    } else {
        s.subrange(a, rstrip_ws(s, s.len() as int))
    }
}

pub fn trim(s: &Vec<char>) -> (r: Vec<char>)
    ensures
        r@ == trim_seq(s@),
{
    proof {
        lemma_skip_ws(s@, 0);
        lemma_rstrip_ws(s@, s@.len() as int);
    }
    let mut a: usize = 0;
    while a < s.len() && is_ws_char(s[a])
        invariant
            0 <= a <= s@.len(),
            skip_ws(s@, 0) == skip_ws(s@, a as int),
        decreases s.len() - a,
    {
        a += 1;
    }
    assert(skip_ws(s@, a as int) == a);
    if a == s.len() {
        let r: Vec<char> = Vec::new();
        assert(r@ =~= trim_seq(s@));
        return r;
    }
    let mut b: usize = s.len();
    while b > 0 && is_ws_char(s[b - 1])
        invariant
            0 <= b <= s@.len(),
            rstrip_ws(s@, s@.len() as int) == rstrip_ws(s@, b as int),
        decreases b,
    {
        b -= 1;
    }
    assert(rstrip_ws(s@, b as int) == b);
    proof {
        if b < a {
            lemma_skip_ws(s@, 0);
            lemma_rstrip_ws(s@, s@.len() as int);
            assert(!is_ws(s@[a as int]));
            assert(is_ws(s@[a as int]));
        }
    }
    subrange_vec(s, a, b)
}

/// The first position of `c` at or after `i`, if any.
pub open spec fn find_char(s: Seq<char>, c: char, i: int) -> Option<int>
    decreases s.len() - i,
{
    if i < 0 || i >= s.len() {
        None
    } else if s[i] == c {
        Some(i)
    } else {
        find_char(s, c, i + 1)
    }
}

pub fn find_char_exec(s: &Vec<char>, c: char) -> (r: Option<usize>)
    ensures
        match r {
            Some(j) => j < s@.len() && find_char(s@, c, 0) == Some(j as int),
            None => find_char(s@, c, 0) is None,
        },
{
    let mut i: usize = 0;
    while i < s.len()
        invariant
            0 <= i <= s@.len(),
            find_char(s@, c, 0) == find_char(s@, c, i as int),
        decreases s.len() - i,
    {
        if s[i] == c {
            return Some(i);
        }
        i += 1;
    }
    None
}

/// The last position of `c` strictly before `j`, if any.
pub open spec fn rfind_char(s: Seq<char>, c: char, j: int) -> Option<int>
    decreases j,
{
    if j <= 0 || j > s.len() {
        None
    } else if s[j - 1] == c {
        Some(j - 1)
    } else {
        rfind_char(s, c, j - 1)
    }
}

pub fn rfind_char_exec(s: &Vec<char>, c: char) -> (r: Option<usize>)
    ensures
        match r {
            Some(j) => j < s@.len() && rfind_char(s@, c, s@.len() as int) == Some(j as int),
            None => rfind_char(s@, c, s@.len() as int) is None,
        },
{
    let mut j: usize = s.len();
    while j > 0
        invariant
            0 <= j <= s@.len(),
            rfind_char(s@, c, s@.len() as int) == rfind_char(s@, c, j as int),
        decreases j,
    {
        if s[j - 1] == c {
            return Some(j - 1);
        }
        j -= 1;
    }
    None
}

/// Each piece trimmed of surrounding whitespace.
pub open spec fn trim_each_sp(ps: Seq<Seq<char>>) -> Seq<Seq<char>> {
    ps.map_values(|p: Seq<char>| trim_seq(p))
}

pub fn trim_each(parts: &Vec<Vec<char>>) -> (r: Vec<Vec<char>>)
    ensures
        views(r@) == trim_each_sp(views(parts@)),
{
    let mut r: Vec<Vec<char>> = Vec::new();
    let mut i: usize = 0;
    assert(views(r@) =~= trim_each_sp(views(parts@)).take(0));
    while i < parts.len()
        invariant
            0 <= i <= parts@.len(),
            views(r@) == trim_each_sp(views(parts@)).take(i as int),
        decreases parts.len() - i,
    {
        let t = trim(&parts[i]);
        let ghost r0 = r@;
        let ghost tv = t@;
        r.push(t);
        proof {
            let vs = views(parts@);
            let tsp = trim_each_sp(vs);
            assert(vs[i as int] == parts@[i as int]@);
            assert(tsp[i as int] == trim_seq(vs[i as int]));
            assert(views(r@) =~= views(r0).push(tv));
            assert(views(r0).push(tv) =~= tsp.take(i + 1));
        }
        i += 1;
    }
    assert(views(r@) =~= trim_each_sp(views(parts@)));
    r
}

/// Last position `b <= j` such that everything in `[b, j)` equals `c`.
pub open spec fn rstrip_char(s: Seq<char>, c: char, j: int) -> int
    decreases j when 0 <= j <= s.len()
{
    if j > 0 && s[j - 1] == c {
        rstrip_char(s, c, j - 1)
    } else {
        j
    }
}

/// `s` with every trailing `c` removed.
pub open spec fn trim_end_char(s: Seq<char>, c: char) -> Seq<char> {
    s.subrange(0, rstrip_char(s, c, s.len() as int))
}

pub fn trim_end_matching(s: &Vec<char>, c: char) -> (r: Vec<char>)
    ensures
        r@ == trim_end_char(s@, c),
{
    let mut b: usize = s.len();
    while b > 0 && s[b - 1] == c
        invariant
            0 <= b <= s@.len(),
            rstrip_char(s@, c, s@.len() as int) == rstrip_char(s@, c, b as int),
        decreases b,
    {
        b -= 1;
    }
    assert(rstrip_char(s@, c, b as int) == b);
    subrange_vec(s, 0, b)
}

} // verus!
