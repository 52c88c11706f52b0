//! Small verified text helpers shared by the modules that classify raw
//! system strings.

use vstd::prelude::*;

verus! {

/// The pieces of `s` between newline characters, with the piece in progress
/// holding `cur`: a newline closes the current piece, and the last piece is
/// kept even when empty.
pub open spec fn spec_lines_from(s: Seq<char>, cur: Seq<char>) -> Seq<Seq<char>>
    decreases s.len(),
{
    if s.len() == 0 {
        seq![cur]
    } else if s[0] == '\n' {
        seq![cur] + spec_lines_from(s.drop_first(), seq![])
    } else {
        spec_lines_from(s.drop_first(), cur.push(s[0]))
    }
}

/// The lines of `s`: the pieces between newline characters, in order.
pub open spec fn spec_lines(s: Seq<char>) -> Seq<Seq<char>> {
    spec_lines_from(s, seq![])
}

/// Whitespace for token splitting: blanks, tabs and the line-end characters.
pub open spec fn spec_is_token_ws(c: char) -> bool {
    c == ' ' || c == '\t' || c == '\r' || c == '\n'
}

/// The whitespace-separated tokens of the rest of `s` when the token in
/// progress holds `cur`: a whitespace character closes the current token,
/// and empty tokens are dropped.
pub open spec fn spec_tokens_from(s: Seq<char>, cur: Seq<char>) -> Seq<Seq<char>>
    decreases s.len(),
{
    if s.len() == 0 {
        if cur.len() > 0 {
            seq![cur]
        } else {
            seq![]
        }
    } else if spec_is_token_ws(s[0]) {
        (if cur.len() > 0 {
            seq![cur]
        } else {
            seq![]
        }) + spec_tokens_from(s.drop_first(), seq![])
    } else {
        spec_tokens_from(s.drop_first(), cur.push(s[0]))
    }
}

/// The whitespace-separated tokens of `s`, in order.
pub open spec fn spec_tokens(s: Seq<char>) -> Seq<Seq<char>> {
    spec_tokens_from(s, seq![])
}

/// The views of a vector of strings.
pub open spec fn views_of(v: Seq<String>) -> Seq<Seq<char>> {
    v.map_values(|l: String| l@)
}

/// Splits `s` into its lines: the pieces between newline characters, in
/// order, the last one kept even when empty.
pub fn split_lines(s: &str) -> (r: Vec<String>)
    ensures
        views_of(r@) == spec_lines(s@),
{
    let n: usize = s.unicode_len();
    let mut out: Vec<String> = Vec::new();
    let mut i: usize = 0;
    let mut ls: usize = 0;
    proof {
        assert(s@.skip(0) =~= s@);
        assert(s@.subrange(0, 0) =~= Seq::<char>::empty());
        assert(views_of(out@) + spec_lines_from(s@, seq![]) =~= spec_lines(s@));
    }
    while i < n
        invariant
            n == s@.len(),
            ls <= i <= n,
            spec_lines(s@) == views_of(out@) + spec_lines_from(
                s@.skip(i as int), s@.subrange(ls as int, i as int)),
        decreases n - i,
    {
        proof {
            assert(s@.skip(i as int)[0] == s@[i as int]);
            assert(s@.skip(i as int).drop_first() =~= s@.skip(i as int + 1));
        }
        let c = s.get_char(i);
        if c == '\n' {
            let line = s.substring_char(ls, i);
            out.push(String::from_str(line));
            proof {
                assert(views_of(out@) =~= views_of(out@.drop_last()).push(
                    s@.subrange(ls as int, i as int)));
                assert(views_of(out@.drop_last()) + (seq![s@.subrange(ls as int, i as int)]
                    + spec_lines_from(s@.skip(i as int + 1), seq![])) =~= views_of(out@)
                    + spec_lines_from(s@.skip(i as int + 1), seq![]));
                assert(s@.subrange(i as int + 1, i as int + 1) =~= Seq::<char>::empty());
            }
            ls = i + 1;
        } else {
            proof {
                assert(s@.subrange(ls as int, i as int + 1) =~= s@.subrange(
                    ls as int, i as int).push(s@[i as int]));
            }
        }
        i = i + 1;
    }
    proof {
        assert(s@.skip(n as int) =~= Seq::<char>::empty());
    }
    let line = s.substring_char(ls, n);
    out.push(String::from_str(line));
    proof {
        assert(views_of(out@) =~= views_of(out@.drop_last()).push(
            s@.subrange(ls as int, n as int)));
        assert(views_of(out@.drop_last()) + seq![s@.subrange(ls as int, n as int)] =~= views_of(
            out@));
    }
    out
}

/// Splits `s` on whitespace into its nonempty tokens, in order.
pub fn split_tokens(s: &str) -> (r: Vec<String>)
    ensures
        views_of(r@) == spec_tokens(s@),
{
    let n: usize = s.unicode_len();
    let mut out: Vec<String> = Vec::new();
    let mut i: usize = 0;
    let mut ts: usize = 0;
    proof {
        assert(s@.skip(0) =~= s@);
        assert(s@.subrange(0, 0) =~= Seq::<char>::empty());
        assert(views_of(out@) + spec_tokens_from(s@, seq![]) =~= spec_tokens(s@));
    }
    while i < n
        invariant
            n == s@.len(),
            ts <= i <= n,
            spec_tokens(s@) == views_of(out@) + spec_tokens_from(
                s@.skip(i as int), s@.subrange(ts as int, i as int)),
        decreases n - i,
    {
        proof {
            assert(s@.skip(i as int)[0] == s@[i as int]);
            assert(s@.skip(i as int).drop_first() =~= s@.skip(i as int + 1));
        }
        let c = s.get_char(i);
        if c == ' ' || c == '\t' || c == '\r' || c == '\n' {
            if i > ts {
                let tok = s.substring_char(ts, i);
                out.push(String::from_str(tok));
                proof {
                    assert(views_of(out@) =~= views_of(out@.drop_last()).push(
                        s@.subrange(ts as int, i as int)));
                    assert(views_of(out@.drop_last()) + (seq![s@.subrange(ts as int, i as int)]
                        + spec_tokens_from(s@.skip(i as int + 1), seq![])) =~= views_of(out@)
                        + spec_tokens_from(s@.skip(i as int + 1), seq![]));
                }
            }
            proof {
                assert(s@.subrange(i as int + 1, i as int + 1) =~= Seq::<char>::empty());
            }
            ts = i + 1;
        } else {
            proof {
                assert(s@.subrange(ts as int, i as int + 1) =~= s@.subrange(
                    ts as int, i as int).push(s@[i as int]));
            }
        }
        i = i + 1;
    }
    proof {
        assert(s@.skip(n as int) =~= Seq::<char>::empty());
    }
    if n > ts {
        let tok = s.substring_char(ts, n);
        out.push(String::from_str(tok));
        proof {
            assert(views_of(out@) =~= views_of(out@.drop_last()).push(
                s@.subrange(ts as int, n as int)));
            assert(views_of(out@.drop_last()) + seq![s@.subrange(ts as int, n as int)]
                =~= views_of(out@));
        }
    } else {
        proof {
            assert(views_of(out@) + spec_tokens_from(
                Seq::<char>::empty(), s@.subrange(ts as int, n as int)) =~= views_of(out@));
        }
    }
    out
}

/// The pieces of `s` between `|` separators, with the piece in progress
/// holding `cur`: a separator closes the current piece, and every piece is
/// kept, empty or not.
pub open spec fn spec_fields_from(s: Seq<char>, cur: Seq<char>) -> Seq<Seq<char>>
    decreases s.len(),
{
    if s.len() == 0 {
        seq![cur]
    } else if s[0] == '|' {
        seq![cur] + spec_fields_from(s.drop_first(), seq![])
    } else {
        spec_fields_from(s.drop_first(), cur.push(s[0]))
    }
}

/// The `|`-separated fields of `s`, in order, empty fields kept.
pub open spec fn spec_fields(s: Seq<char>) -> Seq<Seq<char>> {
    spec_fields_from(s, seq![])
}

/// `t` without its leading whitespace.
pub open spec fn spec_trim_front(t: Seq<char>) -> Seq<char>
    decreases t.len(),
{
    if t.len() > 0 && spec_is_token_ws(t[0]) {
        spec_trim_front(t.drop_first())
    } else {
        t
    }
}

/// `t` without its trailing whitespace.
pub open spec fn spec_trim_back(t: Seq<char>) -> Seq<char>
    decreases t.len(),
{
    if t.len() > 0 && spec_is_token_ws(t.last()) {
        spec_trim_back(t.drop_last())
    } else {
        t
    }
}

/// `t` without leading and trailing whitespace.
pub open spec fn spec_trim(t: Seq<char>) -> Seq<char> {
    spec_trim_back(spec_trim_front(t))
}

/// The tokens joined by single blanks.
pub open spec fn spec_join_sp(ts: Seq<Seq<char>>) -> Seq<char>
    decreases ts.len(),
{
    if ts.len() == 0 {
        seq![]
    } else if ts.len() == 1 {
        ts[0]
    } else {
        ts[0] + seq![' '] + spec_join_sp(ts.drop_first())
    }
}

proof fn lemma_join_sp_push(ts: Seq<Seq<char>>, t: Seq<char>)
    ensures
        ts.len() == 0 ==> spec_join_sp(ts.push(t)) == t,
        ts.len() > 0 ==> spec_join_sp(ts.push(t)) == spec_join_sp(ts) + seq![' '] + t,
    decreases ts.len(),
{
    if ts.len() == 0 {
        assert(ts.push(t)[0] == t);
    } else {
        assert(ts.push(t)[0] == ts[0]);
        assert(ts.push(t).drop_first() =~= ts.drop_first().push(t));
        lemma_join_sp_push(ts.drop_first(), t);
        if ts.len() == 1 {
            assert(spec_join_sp(ts.push(t)) =~= ts[0] + seq![' '] + t);
            assert(spec_join_sp(ts) == ts[0]);
        } else {
            assert(ts[0] + seq![' '] + (spec_join_sp(ts.drop_first()) + seq![' '] + t) =~= (ts[0]
                + seq![' '] + spec_join_sp(ts.drop_first())) + seq![' '] + t);
        }
    }
}

fn is_ws_char(c: char) -> (r: bool)
    ensures
        r == spec_is_token_ws(c),
{
    c == ' ' || c == '\t' || c == '\r' || c == '\n'
}

/// Splits `s` on `|` into its fields, in order, empty fields kept.
pub fn split_fields(s: &str) -> (r: Vec<String>)
    ensures
        views_of(r@) == spec_fields(s@),
{
    let n: usize = s.unicode_len();
    let mut out: Vec<String> = Vec::new();
    let mut i: usize = 0;
    let mut fs: usize = 0;
    proof {
        assert(s@.skip(0) =~= s@);
        assert(s@.subrange(0, 0) =~= Seq::<char>::empty());
        assert(views_of(out@) + spec_fields_from(s@, seq![]) =~= spec_fields(s@));
    }
    while i < n
        invariant
            n == s@.len(),
            fs <= i <= n,
            spec_fields(s@) == views_of(out@) + spec_fields_from(
                s@.skip(i as int), s@.subrange(fs as int, i as int)),
        decreases n - i,
    {
        proof {
            assert(s@.skip(i as int)[0] == s@[i as int]);
            assert(s@.skip(i as int).drop_first() =~= s@.skip(i as int + 1));
        }
        let c = s.get_char(i);
        if c == '|' {
            let field = s.substring_char(fs, i);
            out.push(String::from_str(field));
            proof {
                assert(views_of(out@) =~= views_of(out@.drop_last()).push(
                    s@.subrange(fs as int, i as int)));
                assert(views_of(out@.drop_last()) + (seq![s@.subrange(fs as int, i as int)]
                    + spec_fields_from(s@.skip(i as int + 1), seq![])) =~= views_of(out@)
                    + spec_fields_from(s@.skip(i as int + 1), seq![]));
                assert(s@.subrange(i as int + 1, i as int + 1) =~= Seq::<char>::empty());
            }
            fs = i + 1;
        } else {
            proof {
                assert(s@.subrange(fs as int, i as int + 1) =~= s@.subrange(
                    fs as int, i as int).push(s@[i as int]));
            }
        }
        i = i + 1;
    }
    proof {
        assert(s@.skip(n as int) =~= Seq::<char>::empty());
    }
    let field = s.substring_char(fs, n);
    out.push(String::from_str(field));
    proof {
        assert(views_of(out@) =~= views_of(out@.drop_last()).push(
            s@.subrange(fs as int, n as int)));
        assert(views_of(out@.drop_last()) + seq![s@.subrange(fs as int, n as int)] =~= views_of(
            out@));
    }
    out
}

/// `s` without leading and trailing whitespace.
pub fn trim_str(s: &str) -> (r: String)
    ensures
        r@ == spec_trim(s@),
{
    let n: usize = s.unicode_len();
    let mut a: usize = 0;
    proof {
        assert(s@.skip(0) =~= s@);
    }
    while a < n && is_ws_char(s.get_char(a))
        invariant
            a <= n,
            n == s@.len(),
            spec_trim_front(s@) == spec_trim_front(s@.skip(a as int)),
        decreases n - a,
    {
        proof {
            assert(s@.skip(a as int)[0] == s@[a as int]);
            assert(s@.skip(a as int).drop_first() =~= s@.skip(a as int + 1));
        }
        a = a + 1;
    }
    proof {
        if a < n {
            assert(s@.skip(a as int)[0] == s@[a as int]);
        } else {
            assert(s@.skip(a as int) =~= Seq::<char>::empty());
        }
        assert(spec_trim_front(s@) == s@.skip(a as int));
        assert(s@.skip(a as int) =~= s@.subrange(a as int, n as int));
    }
    let mut b: usize = n;
    while b > a && is_ws_char(s.get_char(b - 1))
        invariant
            a <= b <= n,
            n == s@.len(),
            spec_trim(s@) == spec_trim_back(s@.subrange(a as int, b as int)),
        decreases b,
    {
        proof {
            assert(s@.subrange(a as int, b as int).last() == s@[b as int - 1]);
            assert(s@.subrange(a as int, b as int).drop_last() =~= s@.subrange(
                a as int, b as int - 1));
        }
        b = b - 1;
    }
    proof {
        if b > a {
            assert(s@.subrange(a as int, b as int).last() == s@[b as int - 1]);
        }
        assert(spec_trim(s@) == s@.subrange(a as int, b as int));
    }
    String::from_str(s.substring_char(a, b))
}

/// Joins the tokens from position `from` on with single blanks.
pub fn join_with_spaces(tokens: &Vec<String>, from: usize) -> (r: String)
    requires
        from <= tokens@.len(),
    ensures
        r@ == spec_join_sp(views_of(tokens@).skip(from as int)),
{
    let mut out = String::new();
    let mut j: usize = from;
    proof {
        assert(views_of(tokens@).skip(from as int).subrange(0, 0) =~= Seq::<Seq<char>>::empty());
    }
    while j < tokens.len()
        invariant
            from <= j <= tokens@.len(),
            out@ == spec_join_sp(views_of(tokens@).skip(from as int).subrange(
                0, j as int - from)),
        decreases tokens@.len() - j,
    {
        let ghost done = views_of(tokens@).skip(from as int).subrange(0, j as int - from);
        proof {
            assert(views_of(tokens@).skip(from as int).subrange(0, j as int + 1 - from)
                =~= done.push(tokens@[j as int]@));
            lemma_join_sp_push(done, tokens@[j as int]@);
        }
        if j > from {
            out.append(" ");
            proof {
                reveal_strlit(" ");
                assert(" "@ =~= seq![' ']);
                assert(out@ =~= spec_join_sp(done) + seq![' ']);
            }
        }
        out.append(tokens[j].as_str());
        proof {
            if j == from {
                assert(done.len() == 0);
                assert(out@ =~= tokens@[j as int]@);
            } else {
                assert(out@ =~= spec_join_sp(done) + seq![' '] + tokens@[j as int]@);
            }
        }
        j = j + 1;
    }
    proof {
        assert(views_of(tokens@).skip(from as int).subrange(
            0, tokens@.len() - from) =~= views_of(tokens@).skip(from as int));
    }
    out
}

/// Lexicographic order on character sequences, by scalar value: `a` is
/// equal to or earlier than `b`.
pub open spec fn spec_lex_le(a: Seq<char>, b: Seq<char>) -> bool
    decreases a.len(),
{
    if a.len() == 0 {
        true
    } else if b.len() == 0 {
        false
    } else if (a[0] as u32) < (b[0] as u32) {
        true
    } else if (a[0] as u32) > (b[0] as u32) {
        false
    } else {
        spec_lex_le(a.drop_first(), b.drop_first())
    }
}

/// The lexicographic order is total.
pub proof fn lemma_lex_le_total(a: Seq<char>, b: Seq<char>)
    ensures
        spec_lex_le(a, b) || spec_lex_le(b, a),
    decreases a.len(),
{
    if a.len() > 0 && b.len() > 0 && a[0] as u32 == b[0] as u32 {
        lemma_lex_le_total(a.drop_first(), b.drop_first());
    }
}

/// The lexicographic order is transitive.
pub proof fn lemma_lex_le_trans(a: Seq<char>, b: Seq<char>, c: Seq<char>)
    requires
        spec_lex_le(a, b),
        spec_lex_le(b, c),
    ensures
        spec_lex_le(a, c),
    decreases a.len(),
{
    if a.len() > 0 && b.len() > 0 && c.len() > 0 && a[0] as u32 == b[0] as u32 && b[0] as u32
        == c[0] as u32 {
        lemma_lex_le_trans(a.drop_first(), b.drop_first(), c.drop_first());
    }
}

/// Orders two strings lexicographically by character value: true iff `a` is
/// equal to or earlier than `b`.
pub fn lex_le(a: &str, b: &str) -> (r: bool)
    ensures
        r == spec_lex_le(a@, b@),
{
    let na: usize = a.unicode_len();
    let nb: usize = b.unicode_len();
    let min: usize = if na < nb {
        na
    } else {
        nb
    };
    let mut i: usize = 0;
    proof {
        assert(a@.skip(0) =~= a@);
        assert(b@.skip(0) =~= b@);
    }
    while i < min
        invariant
            i <= min,
            min <= na == a@.len(),
            min <= nb == b@.len(),
            min == na || min == nb,
            spec_lex_le(a@, b@) == spec_lex_le(a@.skip(i as int), b@.skip(i as int)),
        decreases min - i,
    {
        proof {
            assert(a@.skip(i as int)[0] == a@[i as int]);
            assert(b@.skip(i as int)[0] == b@[i as int]);
            assert(a@.skip(i as int).drop_first() =~= a@.skip(i as int + 1));
            assert(b@.skip(i as int).drop_first() =~= b@.skip(i as int + 1));
        }
        let ca = a.get_char(i) as u32;
        let cb = b.get_char(i) as u32;
        if ca < cb {
            return true;
        }
        if ca > cb {
            return false;
        }
        i = i + 1;
    }
    proof {
        if na <= nb {
            assert(a@.skip(i as int).len() == 0);
        } else {
            assert(b@.skip(i as int).len() == 0);
            assert(a@.skip(i as int).len() > 0);
        }
    }
    na <= nb
}

/// The pattern occurs in `s` starting at position `i`.
pub open spec fn spec_contains_at(s: Seq<char>, pat: Seq<char>, i: int) -> bool {
    0 <= i && i + pat.len() <= s.len() && s.subrange(i, i + pat.len() as int) == pat
}

/// The pattern occurs somewhere in `s`.
pub open spec fn spec_contains(s: Seq<char>, pat: Seq<char>) -> bool {
    exists|i: int| spec_contains_at(s, pat, i)
}

/// Whether the pattern occurs at the given position.
fn match_at(s: &str, pat: &str, i: usize, n: usize, m: usize) -> (r: bool)
    requires
        n == s@.len(),
        m == pat@.len(),
        i + m <= n,
    ensures
        r == spec_contains_at(s@, pat@, i as int),
{
    let mut j: usize = 0;
    while j < m
        invariant
            j <= m,
            i + m <= n,
            n == s@.len(),
            m == pat@.len(),
            forall|t: int| 0 <= t < j ==> s@[i + t] == pat@[t],
        decreases m - j,
    {
        if s.get_char(i + j) != pat.get_char(j) {
            proof {
                assert(s@.subrange(i as int, i as int + m as int)[j as int] == s@[i + j]);
            }
            return false;
        }
        j = j + 1;
    }
    proof {
        assert(s@.subrange(i as int, i as int + m as int) =~= pat@);
    }
    true
}

/// Whether `pat` occurs as a contiguous substring of `s`.
pub fn contains_substr(s: &str, pat: &str) -> (r: bool)
    ensures
        r == spec_contains(s@, pat@),
{
    let n: usize = s.unicode_len();
    let m: usize = pat.unicode_len();
    if m == 0 {
        proof {
            assert(s@.subrange(0, 0) =~= pat@);
            assert(spec_contains_at(s@, pat@, 0));
        }
        return true;
    }
    if m > n {
        proof {
            assert(!spec_contains(s@, pat@)) by {
                if spec_contains(s@, pat@) {
                    let i = choose|i: int| spec_contains_at(s@, pat@, i);
                }
            }
        }
        return false;
    }
    let mut i: usize = 0;
    while i <= n - m
        invariant
            0 < m <= n,
            n == s@.len(),
            m == pat@.len(),
            i <= n - m + 1,
            forall|j: int| 0 <= j < i ==> !spec_contains_at(s@, pat@, j),
        decreases n - i,
    {
        if match_at(s, pat, i, n, m) {
            proof {
                assert(spec_contains(s@, pat@));
            }
            return true;
        }
        i = i + 1;
    }
    proof {
        assert(!spec_contains(s@, pat@)) by {
            if spec_contains(s@, pat@) {
                let j = choose|j: int| spec_contains_at(s@, pat@, j);
                assert(0 <= j < i);
            }
        }
    }
    false
}

} // verus!
