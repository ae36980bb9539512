use vstd::prelude::*;

verus! {

// ---------------------------------------------------------------------------
// Characters.
// ---------------------------------------------------------------------------

/// The characters with the Unicode `White_Space` property, those that
/// `char::is_whitespace` accepts and that `str::trim` and
/// `str::split_whitespace` treat as separators.
pub open spec fn is_whitespace(c: char) -> bool {
    ||| '\t' <= c <= '\r'
    ||| c == ' '
    ||| c == '\u{85}'
    ||| c == '\u{A0}'
    ||| c == '\u{1680}'
    ||| '\u{2000}' <= c <= '\u{200A}'
    ||| c == '\u{2028}'
    ||| c == '\u{2029}'
    ||| c == '\u{202F}'
    ||| c == '\u{205F}'
    ||| c == '\u{3000}'
}

/// Whether `c` is a whitespace character.
pub fn char_is_whitespace(c: char) -> (b: bool)
    ensures
        b == is_whitespace(c),
{
    ('\t' <= c && c <= '\r') || c == ' ' || c == '\u{85}' || c == '\u{A0}' || c == '\u{1680}'
        || ('\u{2000}' <= c && c <= '\u{200A}') || c == '\u{2028}' || c == '\u{2029}'
        || c == '\u{202F}' || c == '\u{205F}' || c == '\u{3000}'
}

/// An ASCII decimal digit.
pub open spec fn is_digit(c: char) -> bool {
    '0' <= c <= '9'
}

/// The numeric value of a decimal digit.
pub open spec fn digit_value(c: char) -> int {
    c as int - '0' as int
}

// ---------------------------------------------------------------------------
// Parsing an unsigned byte the way `str::parse::<u8>` does.
// ---------------------------------------------------------------------------

/// Every character of `s` is a decimal digit.
pub open spec fn all_digits(s: Seq<char>) -> bool {
    forall|i: int| 0 <= i < s.len() ==> #[trigger] is_digit(s[i])
}

/// The number that the decimal digits `s` denote.
pub open spec fn decimal_value(s: Seq<char>) -> int
    decreases s.len(),
{
    if s.len() == 0 {
        0
    } else {
        10 * decimal_value(s.drop_last()) + digit_value(s.last())
    }
}

/// The digits of an unsigned number: `s` without one leading `+`.
pub open spec fn unsigned_digits(s: Seq<char>) -> Seq<char> {
    if s.len() > 0 && s[0] == '+' {
        s.drop_first()
    } else {
        s
    }
}

/// The byte that `s` denotes, if any: an optional `+` followed by one or more
/// decimal digits whose value is at most 255 (leading zeros allowed).
pub open spec fn parse_u8_spec(s: Seq<char>) -> Option<u8> {
    let d = unsigned_digits(s);
    if d.len() > 0 && all_digits(d) && decimal_value(d) <= 255 {
        Some(decimal_value(d) as u8)
    } else {
        None
    }
}

/// `decimal_value`, capped at 256.
spec fn capped(v: int) -> int {
    if v < 256 {
        v
    } else {
        256
    }
}

proof fn lemma_decimal_value_nonneg(s: Seq<char>)
    requires
        all_digits(s),
    ensures
        decimal_value(s) >= 0,
    decreases s.len(),
{
    if s.len() > 0 {
        assert(is_digit(s[s.len() - 1]));
        lemma_decimal_value_nonneg(s.drop_last());
    }
}

/// Parses the characters `line[start..end]` as `str::parse::<u8>` would.
pub fn parse_u8_range(line: &Vec<char>, start: usize, end: usize) -> (res: Option<u8>)
    requires
        start <= end <= line.len(),
    ensures
        res == parse_u8_spec(line@.subrange(start as int, end as int)),
{
    let ghost s = line@.subrange(start as int, end as int);
    let mut i: usize = start;
    if i < end && line[i] == '+' {
        i = i + 1;
    }
    let ghost d = unsigned_digits(s);
    assert(d == line@.subrange(i as int, end as int));
    if i == end {
        return None;
    }
    let first: usize = i;
    let mut acc: u32 = 0;
    while i < end
        invariant
            first <= i <= end <= line.len(),
            d == line@.subrange(first as int, end as int),
            s == line@.subrange(start as int, end as int),
            d == unsigned_digits(s),
            all_digits(line@.subrange(first as int, i as int)),
            acc == capped(decimal_value(line@.subrange(first as int, i as int))),
        decreases end - i,
    {
        let c = line[i];
        if !('0' <= c && c <= '9') {
            assert(d[i - first] == c);
            assert(!is_digit(d[i - first]));
            assert(!all_digits(d));
            return None;
        }
        let ghost p = line@.subrange(first as int, i as int);
        let ghost q = line@.subrange(first as int, i as int + 1);
        assert(q.drop_last() =~= p);
        assert(q.last() == c);
        assert(all_digits(q)) by {
            assert forall|k: int| 0 <= k < q.len() implies #[trigger] is_digit(q[k]) by {
                if k < p.len() {
                    assert(q[k] == p[k]);
                }
            }
        }
        proof {
            lemma_decimal_value_nonneg(p);
        }
        let dv: u32 = (c as u32) - ('0' as u32);
        let next: u32 = acc * 10 + dv;
        acc = if next < 256 { next } else { 256 };
        i = i + 1;
    }
    assert(line@.subrange(first as int, end as int) =~= d);
    proof {
        lemma_decimal_value_nonneg(d);
    }
    if acc < 256 {
        Some(acc as u8)
    } else {
        None
    }
}

// ---------------------------------------------------------------------------
// Splitting a line at whitespace, as `str::split_whitespace` does.
// ---------------------------------------------------------------------------

/// Scanning `s` from the left: the tokens completed so far and the token
/// being read (empty between tokens).
pub open spec fn split_state(s: Seq<char>) -> (Seq<Seq<char>>, Seq<char>)
    decreases s.len(),
{
    if s.len() == 0 {
        (Seq::empty(), Seq::empty())
    } else {
        let (done, cur) = split_state(s.drop_last());
        if is_whitespace(s.last()) {
            if cur.len() > 0 {
                (done.push(cur), Seq::empty())
            } else {
                (done, Seq::empty())
            }
        } else {
            (done, cur.push(s.last()))
        }
    }
}

/// The maximal runs of non-whitespace characters of `s`, in order.
pub open spec fn split_whitespace(s: Seq<char>) -> Seq<Seq<char>> {
    let (done, cur) = split_state(s);
    if cur.len() > 0 {
        done.push(cur)
    } else {
        done
    }
}

/// The bytes that the tokens denote, skipping tokens that are not bytes.
pub open spec fn parsed_values(tokens: Seq<Seq<char>>) -> Seq<u8>
    decreases tokens.len(),
{
    if tokens.len() == 0 {
        Seq::empty()
    } else {
        parsed_values(tokens.drop_last()) + match parse_u8_spec(tokens.last()) {
            Some(v) => seq![v],
            None => Seq::empty(),
        }
    }
}

/// The bytes on a line of whitespace-separated values.
pub open spec fn line_values(line: Seq<char>) -> Seq<u8> {
    parsed_values(split_whitespace(line))
}

proof fn lemma_parsed_values_push(tokens: Seq<Seq<char>>, t: Seq<char>)
    ensures
        parsed_values(tokens.push(t)) == parsed_values(tokens) + match parse_u8_spec(t) {
            Some(v) => seq![v],
            None => Seq::<u8>::empty(),
        },
{
    assert(tokens.push(t).drop_last() =~= tokens);
}

/// The bytes on `line`, a line of whitespace-separated values: each token
/// that parses as a `u8`, in order; other tokens are skipped.
pub fn parse_line_values(line: &Vec<char>) -> (out: Vec<u8>)
    ensures
        out@ == line_values(line@),
{
    let n = line.len();
    let mut out: Vec<u8> = Vec::new();
    let mut start: usize = 0;
    let mut in_token = false;
    let mut i: usize = 0;
    while i < n
        invariant
            n == line.len(),
            i <= n,
            start <= i,
            out@ == parsed_values(split_state(line@.take(i as int)).0),
            in_token ==> split_state(line@.take(i as int)).1 == line@.subrange(start as int, i as int)
                && start < i,
            !in_token ==> split_state(line@.take(i as int)).1.len() == 0,
        decreases n - i,
    {
        let c = line[i];
        let ghost pre = line@.take(i as int);
        let ghost post = line@.take(i as int + 1);
        assert(post.drop_last() =~= pre);
        assert(post.last() == c);
        let ghost (done, cur) = split_state(pre);
        if char_is_whitespace(c) {
            if in_token {
                let r = parse_u8_range(line, start, i);
                proof {
                    lemma_parsed_values_push(done, cur);
                }
                match r {
                    Some(v) => {
                        out.push(v);
                    },
                    None => {},
                }
                in_token = false;
            }
        } else {
            if !in_token {
                start = i;
                in_token = true;
                assert(line@.subrange(start as int, i as int + 1) =~= cur.push(c));
            } else {
                assert(line@.subrange(start as int, i as int + 1) =~= cur.push(c));
            }
        }
        i = i + 1;
    }
    assert(line@.take(n as int) =~= line@);
    if in_token {
        let r = parse_u8_range(line, start, n);
        proof {
            lemma_parsed_values_push(split_state(line@).0, split_state(line@).1);
        }
        match r {
            Some(v) => {
                out.push(v);
            },
            None => {},
        }
    }
    out
}

// ---------------------------------------------------------------------------
// Trimming a line, as `str::trim` does.
// ---------------------------------------------------------------------------

/// `s` without its leading whitespace.
pub open spec fn trim_start(s: Seq<char>) -> Seq<char>
    decreases s.len(),
{
    if s.len() > 0 && is_whitespace(s[0]) {
        trim_start(s.drop_first())
    } else {
        s
    }
}

/// `s` without its trailing whitespace.
pub open spec fn trim_end(s: Seq<char>) -> Seq<char>
    decreases s.len(),
{
    if s.len() > 0 && is_whitespace(s.last()) {
        trim_end(s.drop_last())
    } else {
        s
    }
}

/// `s` without leading and trailing whitespace.
pub open spec fn trim(s: Seq<char>) -> Seq<char> {
    trim_end(trim_start(s))
}

/// The byte that a whole line denotes once trimmed, as
/// `line.trim().parse::<u8>()` computes it.
pub fn parse_trimmed_line(line: &Vec<char>) -> (res: Option<u8>)
    ensures
        res == parse_u8_spec(trim(line@)),
{
    let n = line.len();
    let mut a: usize = 0;
    assert(line@.subrange(0, n as int) =~= line@);
    while a < n && char_is_whitespace(line[a])
        invariant
            n == line.len(),
            a <= n,
            trim_start(line@) == trim_start(line@.subrange(a as int, n as int)),
        decreases n - a,
    {
        assert(line@.subrange(a as int, n as int).drop_first() =~= line@.subrange(a as int + 1, n as int));
        a = a + 1;
    }
    assert(trim_start(line@.subrange(a as int, n as int)) == line@.subrange(a as int, n as int));
    let mut b: usize = n;
    while b > a && char_is_whitespace(line[b - 1])
        invariant
            n == line.len(),
            a <= b <= n,
            trim(line@) == trim_end(line@.subrange(a as int, b as int)),
        decreases b - a,
    {
        assert(line@.subrange(a as int, b as int).drop_last() =~= line@.subrange(a as int, b as int - 1));
        b = b - 1;
    }
    assert(trim_end(line@.subrange(a as int, b as int)) == line@.subrange(a as int, b as int));
    parse_u8_range(line, a, b)
}

// ---------------------------------------------------------------------------
// Files of values, given as their lines.
// ---------------------------------------------------------------------------

/// The bytes of a file whose lines hold whitespace-separated values, in order.
pub open spec fn all_line_values(lines: Seq<Vec<char>>) -> Seq<u8>
    decreases lines.len(),
{
    if lines.len() == 0 {
        Seq::empty()
    } else {
        all_line_values(lines.drop_last()) + line_values(lines.last()@)
    }
}

/// The number of lines that hold a byte beyond the first `total` bytes of
/// the file.
pub open spec fn surplus_lines(lines: Seq<Vec<char>>, total: int) -> nat
    decreases lines.len(),
{
    if lines.len() == 0 {
        0
    } else {
        surplus_lines(lines.drop_last(), total) + if line_values(lines.last()@).len() > 0
            && all_line_values(lines).len() > total {
            1nat
        } else {
            0nat
        }
    }
}

/// The bytes of a file of whitespace-separated values, and the number of
/// its lines that hold a byte beyond the first `total`.
pub fn values_from_lines(lines: &Vec<Vec<char>>, total: usize) -> (res: (Vec<u8>, usize))
    ensures
        res.0@ == all_line_values(lines@),
        res.1 == surplus_lines(lines@, total as int),
{
    let mut out: Vec<u8> = Vec::new();
    let mut surplus: usize = 0;
    let mut k: usize = 0;
    while k < lines.len()
        invariant
            k <= lines.len(),
            out@ == all_line_values(lines@.take(k as int)),
            surplus == surplus_lines(lines@.take(k as int), total as int),
            surplus <= k,
        decreases lines.len() - k,
    {
        let ghost pre = lines@.take(k as int);
        let ghost post = lines@.take(k as int + 1);
        assert(post.drop_last() =~= pre);
        assert(post.last() == lines@[k as int]);
        let mut lv = parse_line_values(&lines[k]);
        let found = lv.len() > 0;
        out.append(&mut lv);
        if found && out.len() > total {
            surplus = surplus + 1;
        }
        k = k + 1;
    }
    assert(lines@.take(lines.len() as int) =~= lines@);
    (out, surplus)
}

/// The bytes of a file with one value per line: each line that, trimmed,
/// parses as a `u8`, in order; other lines are skipped.
pub open spec fn all_whole_line_values(lines: Seq<Vec<char>>) -> Seq<u8>
    decreases lines.len(),
{
    if lines.len() == 0 {
        Seq::empty()
    } else {
        all_whole_line_values(lines.drop_last()) + match parse_u8_spec(trim(lines.last()@)) {
            Some(v) => seq![v],
            None => Seq::empty(),
        }
    }
}

/// The bytes of a file with one value per line.
pub fn whole_line_values(lines: &Vec<Vec<char>>) -> (out: Vec<u8>)
    ensures
        out@ == all_whole_line_values(lines@),
{
    let mut out: Vec<u8> = Vec::new();
    let mut k: usize = 0;
    while k < lines.len()
        invariant
            k <= lines.len(),
            out@ == all_whole_line_values(lines@.take(k as int)),
        decreases lines.len() - k,
    {
        let ghost pre = lines@.take(k as int);
        let ghost post = lines@.take(k as int + 1);
        assert(post.drop_last() =~= pre);
        assert(post.last() == lines@[k as int]);
        match parse_trimmed_line(&lines[k]) {
            Some(v) => {
                out.push(v);
            },
            None => {},
        }
        k = k + 1;
    }
    assert(lines@.take(lines.len() as int) =~= lines@);
    out
}

// ---------------------------------------------------------------------------
// Writing values, and reading them back.
// ---------------------------------------------------------------------------

/// The character of the decimal digit `d`.
pub open spec fn digit_char(d: int) -> char {
    ('0' as int + d) as char
}

/// The decimal digits of a byte, without leading zeros.
pub open spec fn decimal_digits(v: u8) -> Seq<char> {
    if v < 10 {
        seq![digit_char(v as int)]
    } else if v < 100 {
        seq![digit_char((v / 10) as int), digit_char((v % 10) as int)]
    } else {
        seq![digit_char((v / 100) as int), digit_char(((v / 10) % 10) as int), digit_char((v % 10) as int)]
    }
}

/// Bytes written in decimal on one line, separated by single spaces.
pub open spec fn render_values(vs: Seq<u8>) -> Seq<char>
    decreases vs.len(),
{
    if vs.len() == 0 {
        Seq::empty()
    } else if vs.len() == 1 {
        decimal_digits(vs[0])
    } else {
        render_values(vs.drop_last()) + seq![' '] + decimal_digits(vs.last())
    }
}

/// A byte written in decimal reads back as itself, trimmed or not.
pub proof fn lemma_parse_decimal_digits(v: u8)
    ensures
        parse_u8_spec(decimal_digits(v)) == Some(v),
        trim(decimal_digits(v)) == decimal_digits(v),
        decimal_digits(v).len() > 0,
        forall|i: int| 0 <= i < decimal_digits(v).len() ==> !is_whitespace(#[trigger] decimal_digits(v)[i]),
{
    let s = decimal_digits(v);
    assert(s.len() > 0);
    assert(!is_whitespace(s[0]));
    assert(!is_whitespace(s.last()));
    assert(unsigned_digits(s) == s);
    assert(all_digits(s));
    if v < 10 {
        lemma_digit_char(v as int);
        assert(s.drop_last() =~= Seq::<char>::empty());
        assert(decimal_value(s) == 10 * decimal_value(s.drop_last()) + digit_value(s.last()));
    } else if v < 100 {
        let a = (v / 10) as int;
        let b = (v % 10) as int;
        lemma_digit_char(a);
        lemma_digit_char(b);
        let p1 = s.drop_last();
        assert(p1 =~= seq![digit_char(a)]);
        assert(p1.drop_last() =~= Seq::<char>::empty());
        assert(decimal_value(p1) == 10 * decimal_value(p1.drop_last()) + digit_value(p1.last()));
        assert(decimal_value(s) == 10 * decimal_value(p1) + digit_value(s.last()));
        assert(decimal_value(s) == 10 * a + b);
    } else {
        let a = (v / 100) as int;
        let b = ((v / 10) % 10) as int;
        let c = (v % 10) as int;
        lemma_digit_char(a);
        lemma_digit_char(b);
        lemma_digit_char(c);
        let p1 = s.drop_last();
        let p2 = p1.drop_last();
        assert(p1 =~= seq![digit_char(a), digit_char(b)]);
        assert(p2 =~= seq![digit_char(a)]);
        assert(p2.drop_last() =~= Seq::<char>::empty());
        assert(decimal_value(p2) == 10 * decimal_value(p2.drop_last()) + digit_value(p2.last()));
        assert(decimal_value(p1) == 10 * decimal_value(p2) + digit_value(p1.last()));
        assert(decimal_value(s) == 10 * decimal_value(p1) + digit_value(s.last()));
        assert(decimal_value(s) == 100 * a + 10 * b + c);
    }
}

proof fn lemma_digit_char(d: int)
    requires
        0 <= d <= 9,
    ensures
        is_digit(digit_char(d)),
        digit_value(digit_char(d)) == d,
        !is_whitespace(digit_char(d)),
        digit_char(d) != '+',
{
}

proof fn lemma_split_state_append_token(s: Seq<char>, t: Seq<char>)
    requires
        forall|i: int| 0 <= i < t.len() ==> !is_whitespace(#[trigger] t[i]),
    ensures
        split_state(s + t) == (split_state(s).0, split_state(s).1 + t),
    decreases t.len(),
{
    if t.len() == 0 {
        assert(s + t =~= s);
        assert(split_state(s).1 + t =~= split_state(s).1);
    } else {
        let t2 = t.drop_last();
        lemma_split_state_append_token(s, t2);
        assert((s + t).drop_last() =~= s + t2);
        assert((s + t).last() == t.last());
        assert(!is_whitespace(t[t.len() - 1]));
        assert(split_state(s).1 + t2 + seq![t.last()] =~= split_state(s).1 + t);
        assert((split_state(s).1 + t2).push(t.last()) =~= split_state(s).1 + t);
    }
}

/// Splitting the rendering of `vs` (not empty) leaves every value's digits
/// but the last as completed tokens, and the last value's digits pending.
proof fn lemma_split_state_render(vs: Seq<u8>)
    requires
        vs.len() > 0,
    ensures
        split_state(render_values(vs)) == (vs.drop_last().map_values(|v: u8| decimal_digits(v)), decimal_digits(vs.last())),
    decreases vs.len(),
{
    lemma_parse_decimal_digits(vs.last());
    if vs.len() == 1 {
        lemma_split_state_append_token(Seq::empty(), decimal_digits(vs[0]));
        assert(Seq::<char>::empty() + decimal_digits(vs[0]) =~= decimal_digits(vs[0]));
        assert(vs.drop_last().map_values(|v: u8| decimal_digits(v)) =~= Seq::<Seq<char>>::empty());
        assert(Seq::<char>::empty() + decimal_digits(vs[0]) =~= decimal_digits(vs.last()));
    } else {
        let pre = vs.drop_last();
        lemma_split_state_render(pre);
        lemma_parse_decimal_digits(pre.last());
        let r = render_values(pre);
        let spaced = r + seq![' '];
        assert(spaced.drop_last() =~= r);
        assert(spaced.last() == ' ');
        assert(is_whitespace(' '));
        let done = pre.drop_last().map_values(|v: u8| decimal_digits(v));
        assert(split_state(spaced) == (done.push(decimal_digits(pre.last())), Seq::<char>::empty()));
        assert(done.push(decimal_digits(pre.last())) =~= pre.map_values(|v: u8| decimal_digits(v)));
        lemma_split_state_append_token(spaced, decimal_digits(vs.last()));
        assert(render_values(vs) == spaced + decimal_digits(vs.last()));
        assert(Seq::<char>::empty() + decimal_digits(vs.last()) =~= decimal_digits(vs.last()));
    }
}

proof fn lemma_parsed_values_of_digits(vs: Seq<u8>)
    ensures
        parsed_values(vs.map_values(|v: u8| decimal_digits(v))) == vs,
    decreases vs.len(),
{
    let toks = vs.map_values(|v: u8| decimal_digits(v));
    if vs.len() == 0 {
        assert(toks.len() == 0);
        assert(parsed_values(toks) =~= vs);
    } else {
        lemma_parsed_values_of_digits(vs.drop_last());
        assert(toks.drop_last() =~= vs.drop_last().map_values(|v: u8| decimal_digits(v)));
        lemma_parse_decimal_digits(vs.last());
        assert(toks.last() == decimal_digits(vs.last()));
        assert(vs.drop_last() + seq![vs.last()] =~= vs);
    }
}

/// Bytes written in decimal on one line, separated by spaces, read back as
/// themselves.
pub proof fn lemma_line_values_of_rendered(vs: Seq<u8>)
    ensures
        line_values(render_values(vs)) == vs,
{
    if vs.len() == 0 {
        assert(split_state(Seq::<char>::empty()) == (Seq::<Seq<char>>::empty(), Seq::<char>::empty()));
        assert(split_whitespace(render_values(vs)) =~= Seq::<Seq<char>>::empty());
        assert(parsed_values(Seq::<Seq<char>>::empty()) =~= vs);
    } else {
        lemma_split_state_render(vs);
        lemma_parse_decimal_digits(vs.last());
        let toks = vs.map_values(|v: u8| decimal_digits(v));
        assert(vs.drop_last().map_values(|v: u8| decimal_digits(v)).push(decimal_digits(vs.last())) =~= toks);
        assert(split_whitespace(render_values(vs)) == toks);
        lemma_parsed_values_of_digits(vs);
    }
}

/// Bytes written one per line in decimal read back as themselves.
pub proof fn lemma_whole_line_values_of_rendered(lines: Seq<Vec<char>>, vs: Seq<u8>)
    requires
        lines.len() == vs.len(),
        forall|i: int| 0 <= i < vs.len() ==> #[trigger] lines[i]@ == decimal_digits(vs[i]),
    ensures
        all_whole_line_values(lines) == vs,
    decreases vs.len(),
{
    if vs.len() == 0 {
        assert(all_whole_line_values(lines) =~= vs);
    } else {
        let n = vs.len() - 1;
        assert forall|i: int| 0 <= i < n implies #[trigger] lines.drop_last()[i]@ == decimal_digits(vs.drop_last()[i]) by {
            assert(lines[i]@ == decimal_digits(vs[i]));
        }
        lemma_whole_line_values_of_rendered(lines.drop_last(), vs.drop_last());
        assert(lines[n]@ == decimal_digits(vs[n]));
        lemma_parse_decimal_digits(vs[n]);
        assert(vs.drop_last() + seq![vs.last()] =~= vs);
    }
}

} // verus!
