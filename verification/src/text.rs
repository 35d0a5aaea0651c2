//! Text primitives: white space, trimming, splitting, decimal numbers and the
//! lexicographic order of strings, each with the meaning Rust's own `str`
//! gives it.
use vstd::prelude::*;
use vstd::string::*;

verus! {

/// The Unicode `White_Space` code points (what `char::is_whitespace` accepts).
pub open spec fn is_white_space(c: char) -> bool {
    let u = c as u32;
    ||| (0x09 <= u && u <= 0x0d)
    ||| u == 0x20
    ||| u == 0x85
    ||| u == 0xa0
    ||| u == 0x1680
    ||| (0x2000 <= u && u <= 0x200a)
    ||| u == 0x2028
    ||| u == 0x2029
    ||| u == 0x202f
    ||| u == 0x205f
    ||| u == 0x3000
}

pub fn white_space(c: char) -> (r: bool)
    ensures
        r == is_white_space(c),
{
    let u = c as u32;
    (0x09 <= u && u <= 0x0d) || u == 0x20 || u == 0x85 || u == 0xa0 || u == 0x1680 || (0x2000
        <= u && u <= 0x200a) || u == 0x2028 || u == 0x2029 || u == 0x202f || u == 0x205f || u
        == 0x3000
}

/// `s` without its leading white space.
pub open spec fn trim_start(s: Seq<char>) -> Seq<char>
    decreases s.len(),
{
    if s.len() > 0 && is_white_space(s[0]) {
        trim_start(s.drop_first())
    } else {
        s
    }
}

/// `s` without its trailing white space.
pub open spec fn trim_end(s: Seq<char>) -> Seq<char>
    decreases s.len(),
{
    if s.len() > 0 && is_white_space(s.last()) {
        trim_end(s.drop_last())
    } else {
        s
    }
}

/// `str::trim`: white space removed from both ends.
pub open spec fn trim(s: Seq<char>) -> Seq<char> {
    trim_end(trim_start(s))
}

/// Appends one character (`String::push`).
#[verifier::external_body]
pub(crate) fn push_char(s: &mut String, c: char)
    ensures
        final(s)@ == old(s)@.push(c),
{
    s.push(c);
}

/// The characters of `s`, in order.
pub fn chars_of(s: &str) -> (v: Vec<char>)
    ensures
        v@ == s@,
{
    let n = s.unicode_len();
    let mut v: Vec<char> = Vec::new();
    let mut i: usize = 0;
    while i < n
        invariant
            n == s@.len(),
            i <= n,
            v@ == s@.subrange(0, i as int),
        decreases n - i,
    {
        let c = s.get_char(i);
        v.push(c);
        i = i + 1;
        assert(v@ =~= s@.subrange(0, i as int));
    }
    assert(v@ =~= s@);
    v
}

/// The string made of the characters `v[from..to]`.
pub fn string_of(v: &Vec<char>, from: usize, to: usize) -> (s: String)
    requires
        from <= to <= v@.len(),
    ensures
        s@ == v@.subrange(from as int, to as int),
{
    let mut s = String::new();
    let mut i: usize = from;
    while i < to
        invariant
            from <= i <= to,
            to <= v@.len(),
            s@ == v@.subrange(from as int, i as int),
        decreases to - i,
    {
        push_char(&mut s, v[i]);
        i = i + 1;
        assert(s@ =~= v@.subrange(from as int, i as int));
    }
    s
}

proof fn lemma_trim_start_skip(s: Seq<char>, a: int)
    requires
        0 <= a < s.len(),
        is_white_space(s[a]),
    ensures
        trim_start(s.subrange(a, s.len() as int)) == trim_start(s.subrange(a + 1, s.len() as int)),
{
    assert(s.subrange(a, s.len() as int).drop_first() =~= s.subrange(a + 1, s.len() as int));
}

proof fn lemma_trim_end_skip(s: Seq<char>, a: int, b: int)
    requires
        0 <= a < b <= s.len(),
        is_white_space(s[b - 1]),
    ensures
        trim_end(s.subrange(a, b)) == trim_end(s.subrange(a, b - 1)),
{
    assert(s.subrange(a, b).drop_last() =~= s.subrange(a, b - 1));
}

/// `str::trim`.
pub fn trimmed(s: &str) -> (r: String)
    ensures
        r@ == trim(s@),
{
    let v = chars_of(s);
    let n = v.len();
    let mut a: usize = 0;
    assert(s@.subrange(0, n as int) =~= s@);
    while a < n && white_space(v[a])
        invariant
            v@ == s@,
            n == v@.len(),
            a <= n,
            trim_start(s@) == trim_start(s@.subrange(a as int, n as int)),
        decreases n - a,
    {
        proof {
            lemma_trim_start_skip(s@, a as int);
        }
        a = a + 1;
    }
    let ghost start = s@.subrange(a as int, n as int);
    assert(trim_start(start) == start);
    let mut b: usize = n;
    while b > a && white_space(v[b - 1])
        invariant
            v@ == s@,
            n == v@.len(),
            a <= b <= n,
            trim_end(s@.subrange(a as int, n as int)) == trim_end(s@.subrange(a as int, b as int)),
        decreases b - a,
    {
        proof {
            lemma_trim_end_skip(s@, a as int, b as int);
        }
        b = b - 1;
    }
    string_of(&v, a, b)
}

/// `str::trim(s).is_empty()`.
pub fn is_blank(s: &str) -> (r: bool)
    ensures
        r == (trim(s@).len() == 0),
{
    let t = trimmed(s);
    t.unicode_len() == 0
}

/// Character-wise equality of two strings.
pub fn same_text(a: &str, b: &str) -> (r: bool)
    ensures
        r == (a@ == b@),
{
    let x = chars_of(a);
    let y = chars_of(b);
    if x.len() != y.len() {
        return false;
    }
    let mut i: usize = 0;
    while i < x.len()
        invariant
            x@ == a@,
            y@ == b@,
            x@.len() == y@.len(),
            i <= x@.len(),
            forall|k: int| 0 <= k < i ==> x@[k] == y@[k],
        decreases x@.len() - i,
    {
        if x[i] != y[i] {
            return false;
        }
        i = i + 1;
    }
    assert(x@ =~= y@);
    true
}

// ── Lexicographic order (the order of `str`'s `Ord`) ────────────────────────
/// Strict lexicographic order of character sequences by code point. For valid
/// UTF-8 this is the byte order `str` compares by.
pub open spec fn text_lt(a: Seq<char>, b: Seq<char>) -> bool
    decreases a.len(),
{
    if a.len() == 0 {
        b.len() > 0
    } else if b.len() == 0 {
        false
    } else if a[0] != b[0] {
        (a[0] as int) < (b[0] as int)
    } else {
        text_lt(a.drop_first(), b.drop_first())
    }
}

pub proof fn lemma_text_lt_irreflexive(a: Seq<char>)
    ensures
        !text_lt(a, a),
    decreases a.len(),
{
    if a.len() > 0 {
        lemma_text_lt_irreflexive(a.drop_first());
    }
}

pub proof fn lemma_text_lt_transitive(a: Seq<char>, b: Seq<char>, c: Seq<char>)
    requires
        text_lt(a, b),
        text_lt(b, c),
    ensures
        text_lt(a, c),
    decreases a.len(),
{
    if a.len() > 0 && b.len() > 0 && c.len() > 0 {
        if a[0] == b[0] && b[0] == c[0] {
            lemma_text_lt_transitive(a.drop_first(), b.drop_first(), c.drop_first());
        }
    }
}

pub proof fn lemma_text_lt_total(a: Seq<char>, b: Seq<char>)
    ensures
        a == b || text_lt(a, b) || text_lt(b, a),
    decreases a.len(),
{
    if a.len() > 0 && b.len() > 0 {
        if a[0] == b[0] {
            lemma_text_lt_total(a.drop_first(), b.drop_first());
            if a.drop_first() == b.drop_first() {
                assert(a =~= seq![a[0]] + a.drop_first());
                assert(b =~= seq![b[0]] + b.drop_first());
            }
        } else {
            let x = a[0];
            let y = b[0];
            assert(x != y ==> (x as int) != (y as int));
        }
    } else if a.len() == 0 && b.len() == 0 {
        assert(a =~= b);
    }
}

pub proof fn lemma_text_lt_asymmetric(a: Seq<char>, b: Seq<char>)
    requires
        text_lt(a, b),
    ensures
        !text_lt(b, a),
{
    if text_lt(b, a) {
        lemma_text_lt_transitive(a, b, a);
        lemma_text_lt_irreflexive(a);
    }
}

proof fn lemma_text_lt_suffix(a: Seq<char>, b: Seq<char>, i: int)
    requires
        0 <= i <= a.len(),
        i <= b.len(),
        a.subrange(0, i) == b.subrange(0, i),
    ensures
        text_lt(a, b) == text_lt(a.subrange(i, a.len() as int), b.subrange(i, b.len() as int)),
    decreases i,
{
    if i > 0 {
        assert(a[0] == b.subrange(0, i)[0]);
        assert(a.drop_first().subrange(0, i - 1) =~= a.subrange(1, i));
        assert(b.drop_first().subrange(0, i - 1) =~= b.subrange(1, i));
        assert(a.subrange(1, i) =~= a.subrange(0, i).drop_first());
        assert(b.subrange(1, i) =~= b.subrange(0, i).drop_first());
        lemma_text_lt_suffix(a.drop_first(), b.drop_first(), i - 1);
        assert(a.drop_first().subrange(i - 1, a.len() - 1) =~= a.subrange(i, a.len() as int));
        assert(b.drop_first().subrange(i - 1, b.len() - 1) =~= b.subrange(i, b.len() as int));
    } else {
        assert(a.subrange(0, a.len() as int) =~= a);
        assert(b.subrange(0, b.len() as int) =~= b);
    }
}

/// A character's code fits in `u32`.
pub proof fn lemma_char_code(c: char)
    ensures
        (c as u32) as int == c as int,
        0 <= c as int <= 0x10ffff,
{
}

/// `a < b` in the order of `str`.
pub fn text_less(a: &str, b: &str) -> (r: bool)
    ensures
        r == text_lt(a@, b@),
{
    let x = chars_of(a);
    let y = chars_of(b);
    let mut i: usize = 0;
    while i < x.len() && i < y.len() && x[i] == y[i]
        invariant
            x@ == a@,
            y@ == b@,
            i <= x@.len(),
            i <= y@.len(),
            x@.subrange(0, i as int) == y@.subrange(0, i as int),
        decreases x@.len() - i,
    {
        i = i + 1;
        assert(x@.subrange(0, i as int) =~= y@.subrange(0, i as int));
    }
    proof {
        lemma_text_lt_suffix(x@, y@, i as int);
    }
    let ghost xs = x@.subrange(i as int, x@.len() as int);
    let ghost ys = y@.subrange(i as int, y@.len() as int);
    if i == x.len() {
        i < y.len()
    } else if i == y.len() {
        false
    } else {
        assert(xs[0] == x@[i as int]);
        assert(ys[0] == y@[i as int]);
        let c = x[i];
        let d = y[i];
        proof {
            lemma_char_code(c);
            lemma_char_code(d);
        }
        (c as u32) < (d as u32)
    }
}

// ── Splitting (`str::split` with a set of separator characters) ─────────────
/// The pieces of `s` between the characters that belong to `seps`, as
/// `str::split` yields them: `n` separators give `n + 1` pieces, empty ones
/// included.
pub open spec fn split_text(s: Seq<char>, seps: Seq<char>) -> Seq<Seq<char>>
    decreases s.len(),
{
    if s.len() == 0 {
        seq![Seq::<char>::empty()]
    } else {
        let init = split_text(s.drop_last(), seps);
        if seps.contains(s.last()) {
            init.push(Seq::<char>::empty())
        } else {
            init.update(init.len() - 1, init.last().push(s.last()))
        }
    }
}

pub proof fn lemma_split_text_nonempty(s: Seq<char>, seps: Seq<char>)
    ensures
        split_text(s, seps).len() >= 1,
    decreases s.len(),
{
    if s.len() > 0 {
        lemma_split_text_nonempty(s.drop_last(), seps);
    }
}

/// Text without separators is a single piece.
pub proof fn lemma_split_text_whole(s: Seq<char>, seps: Seq<char>)
    requires
        forall|i: int| 0 <= i < s.len() ==> !seps.contains(#[trigger] s[i]),
    ensures
        split_text(s, seps) == seq![s],
    decreases s.len(),
{
    if s.len() > 0 {
        lemma_split_text_whole(s.drop_last(), seps);
        assert(s.drop_last().push(s.last()) =~= s);
    } else {
        assert(s =~= Seq::<char>::empty());
    }
}

/// Splitting a concatenation: the last piece of `a` and the first piece of
/// `b` join into one.
pub proof fn lemma_split_text_concat(a: Seq<char>, b: Seq<char>, seps: Seq<char>)
    ensures
        split_text(a + b, seps) == split_text(a, seps).drop_last() + seq![
            split_text(a, seps).last() + split_text(b, seps)[0],
        ] + split_text(b, seps).drop_first(),
    decreases b.len(),
{
    let sa = split_text(a, seps);
    lemma_split_text_nonempty(a, seps);
    if b.len() == 0 {
        assert(a + b =~= a);
        assert(sa.last() + Seq::<char>::empty() =~= sa.last());
        assert(sa.drop_last() + seq![sa.last()] =~= sa);
        assert(split_text(b, seps).drop_first() =~= Seq::<Seq<char>>::empty());
        assert(sa.drop_last() + seq![sa.last() + split_text(b, seps)[0]] + split_text(
            b,
            seps,
        ).drop_first() =~= sa);
    } else {
        let b0 = b.drop_last();
        let c = b.last();
        lemma_split_text_concat(a, b0, seps);
        lemma_split_text_nonempty(b0, seps);
        let sb0 = split_text(b0, seps);
        let sb = split_text(b, seps);
        assert((a + b).drop_last() =~= a + b0);
        assert((a + b).last() == c);
        let init = split_text(a + b0, seps);
        if seps.contains(c) {
            assert(sb == sb0.push(Seq::<char>::empty()));
            assert(sb.drop_first() =~= sb0.drop_first().push(Seq::<char>::empty()));
            assert(split_text(a + b, seps) == init.push(Seq::<char>::empty()));
            assert(split_text(a + b, seps) =~= sa.drop_last() + seq![sa.last() + sb[0]]
                + sb.drop_first());
        } else {
            assert(sb == sb0.update(sb0.len() - 1, sb0.last().push(c)));
            assert(split_text(a + b, seps) == init.update(init.len() - 1, init.last().push(c)));
            if sb0.len() == 1 {
                assert(sb0.drop_first() =~= Seq::<Seq<char>>::empty());
                assert(sb.drop_first() =~= Seq::<Seq<char>>::empty());
                assert((sa.last() + sb0[0]).push(c) =~= sa.last() + sb[0]);
                assert(split_text(a + b, seps) =~= sa.drop_last() + seq![sa.last() + sb[0]]
                    + sb.drop_first());
            } else {
                assert(sb.drop_first() =~= sb0.drop_first().update(
                    sb0.len() - 2,
                    sb0.last().push(c),
                ));
                assert(split_text(a + b, seps) =~= sa.drop_last() + seq![sa.last() + sb[0]]
                    + sb.drop_first());
            }
        }
    }
}

pub open spec fn views_of(v: Seq<String>) -> Seq<Seq<char>> {
    v.map_values(|p: String| p@)
}

fn contains_char(seps: &Vec<char>, c: char) -> (r: bool)
    ensures
        r == seps@.contains(c),
{
    let mut i: usize = 0;
    while i < seps.len()
        invariant
            i <= seps@.len(),
            forall|k: int| 0 <= k < i ==> seps@[k] != c,
        decreases seps@.len() - i,
    {
        if seps[i] == c {
            return true;
        }
        i = i + 1;
    }
    false
}

/// `s.split(|c| seps.contains(&c))`, each piece as an owned string.
pub fn split_text_exec(s: &str, seps: &Vec<char>) -> (r: Vec<String>)
    ensures
        views_of(r@) == split_text(s@, seps@),
{
    let v = chars_of(s);
    let mut pieces: Vec<String> = Vec::new();
    let mut current = String::new();
    let mut i: usize = 0;
    assert(v@.subrange(0, 0) =~= Seq::<char>::empty());
    while i < v.len()
        invariant
            v@ == s@,
            i <= v@.len(),
            views_of(pieces@).push(current@) == split_text(v@.subrange(0, i as int), seps@),
        decreases v@.len() - i,
    {
        let c = v[i];
        let ghost pre = v@.subrange(0, i as int);
        let ghost next = v@.subrange(0, i as int + 1);
        assert(next.drop_last() =~= pre);
        assert(next.last() == c);
        proof {
            lemma_split_text_nonempty(pre, seps@);
        }
        if contains_char(seps, c) {
            let done = current;
            pieces.push(done);
            current = String::new();
            assert(views_of(pieces@) =~= split_text(pre, seps@));
            assert(views_of(pieces@).push(current@) =~= split_text(next, seps@));
        } else {
            let ghost before = current@;
            push_char(&mut current, c);
            assert(views_of(pieces@).push(current@) =~= split_text(next, seps@));
        }
        i = i + 1;
    }
    pieces.push(current);
    assert(v@.subrange(0, v@.len() as int) =~= v@);
    assert(views_of(pieces@) =~= split_text(s@, seps@));
    pieces
}

// ── Decimal numbers ──────────────────────────────────────────────────────────
pub open spec fn is_digit(c: char) -> bool {
    48 <= (c as u32) && (c as u32) <= 57
}

pub open spec fn digit_value(c: char) -> nat {
    ((c as u32) - 48) as nat
}

pub open spec fn all_digits(s: Seq<char>) -> bool {
    forall|i: int| 0 <= i < s.len() ==> is_digit(#[trigger] s[i])
}

/// The number a string of decimal digits denotes.
pub open spec fn digits_value(s: Seq<char>) -> nat
    decreases s.len(),
{
    if s.len() == 0 {
        0
    } else {
        digits_value(s.drop_last()) * 10 + digit_value(s.last())
    }
}

/// What `str::parse` gives for an unsigned integer type, before its range is
/// checked: an optional `+` and then one or more decimal digits.
pub open spec fn unsigned_text_value(s: Seq<char>) -> Option<nat> {
    let body = if s.len() > 1 && s[0] == '+' {
        s.drop_first()
    } else {
        s
    };
    if body.len() > 0 && all_digits(body) {
        Some(digits_value(body))
    } else {
        None
    }
}

/// What `str::parse` gives for a signed integer type, before its range is
/// checked: an optional `+` or `-` and then one or more decimal digits.
pub open spec fn signed_text_value(s: Seq<char>) -> Option<int> {
    if s.len() > 1 && s[0] == '-' {
        let body = s.drop_first();
        if all_digits(body) {
            Some(-(digits_value(body) as int))
        } else {
            None
        }
    } else {
        match unsigned_text_value(s) {
            Some(v) => Some(v as int),
            None => None,
        }
    }
}

proof fn lemma_digits_prefix(s: Seq<char>, i: int)
    requires
        0 <= i <= s.len(),
    ensures
        digits_value(s.subrange(0, i)) <= digits_value(s),
    decreases s.len(),
{
    if i < s.len() {
        assert(s.drop_last().subrange(0, i) =~= s.subrange(0, i));
        lemma_digits_prefix(s.drop_last(), i);
    } else {
        assert(s.subrange(0, i) =~= s);
    }
}

/// The value of the digits `v[from..]`, if they are all digits and the value
/// is at most `max`.
fn digits_up_to(v: &Vec<char>, from: usize, max: u64) -> (r: Option<u64>)
    requires
        from <= v@.len(),
    ensures
        ({
            let body = v@.subrange(from as int, v@.len() as int);
            match r {
                Some(x) => all_digits(body) && digits_value(body) == x && x <= max,
                None => !all_digits(body) || digits_value(body) > max,
            }
        }),
{
    let ghost body = v@.subrange(from as int, v@.len() as int);
    let mut acc: u64 = 0;
    let mut i: usize = from;
    assert(body.subrange(0, 0) =~= Seq::<char>::empty());
    while i < v.len()
        invariant
            from <= i <= v@.len(),
            body == v@.subrange(from as int, v@.len() as int),
            all_digits(body.subrange(0, i - from)),
            acc == digits_value(body.subrange(0, i - from)),
            acc <= max,
        decreases v@.len() - i,
    {
        let c = v[i];
        let u = c as u32;
        if u < 48 || u > 57 {
            assert(body[i - from] == c);
            return None;
        }
        let d = (u - 48) as u64;
        let ghost pre = body.subrange(0, i - from);
        let ghost next = body.subrange(0, i - from + 1);
        assert(next.drop_last() =~= pre);
        assert(next.last() == c);
        assert(digits_value(next) == acc * 10 + d);
        if d > max {
            proof {
                lemma_digits_prefix(body, i - from + 1);
            }
            return None;
        }
        if acc > (max - d) / 10 {
            assert(acc * 10 + d > max) by (nonlinear_arith)
                requires
                    acc > (max - d) / 10,
                    d <= max,
            ;
            proof {
                lemma_digits_prefix(body, i - from + 1);
            }
            return None;
        }
        assert(acc * 10 + d <= max) by (nonlinear_arith)
            requires
                acc <= (max - d) / 10,
                d <= max,
        ;
        acc = acc * 10 + d;
        i = i + 1;
        assert(all_digits(next));
    }
    assert(body.subrange(0, (v@.len() - from) as int) =~= body);
    Some(acc)
}

/// `s.parse::<u64>()` restricted to values at most `max` (`max` is the
/// largest value of the target type).
pub fn parse_unsigned(s: &str, max: u64) -> (r: Option<u64>)
    ensures
        r is Some <==> (unsigned_text_value(s@) is Some && unsigned_text_value(s@)->0 <= max),
        r is Some ==> r->0 == unsigned_text_value(s@)->0,
{
    let v = chars_of(s);
    let from: usize = if v.len() > 1 && v[0] == '+' {
        1
    } else {
        0
    };
    proof {
        if from == 1 {
            assert(v@.subrange(1, v@.len() as int) =~= s@.drop_first());
        } else {
            assert(v@.subrange(0, v@.len() as int) =~= s@);
        }
    }
    if v.len() == from {
        return None;
    }
    digits_up_to(&v, from, max)
}

/// `s.parse::<i32>()`.
pub fn parse_i32(s: &str) -> (r: Option<i32>)
    ensures
        r is Some <==> (signed_text_value(s@) is Some && i32::MIN <= signed_text_value(s@)->0
            <= i32::MAX),
        r is Some ==> r->0 == signed_text_value(s@)->0,
{
    let v = chars_of(s);
    if v.len() > 1 && v[0] == '-' {
        assert(v@.subrange(1, v@.len() as int) =~= s@.drop_first());
        match digits_up_to(&v, 1, 2147483648) {
            Some(x) => {
                let y: i64 = 0 - (x as i64);
                Some(y as i32)
            },
            None => None,
        }
    } else {
        match parse_unsigned(s, 2147483647) {
            Some(x) => Some(x as i32),
            None => None,
        }
    }
}

pub open spec fn digit_char(d: nat) -> char {
    if d == 0 {
        '0'
    } else if d == 1 {
        '1'
    } else if d == 2 {
        '2'
    } else if d == 3 {
        '3'
    } else if d == 4 {
        '4'
    } else if d == 5 {
        '5'
    } else if d == 6 {
        '6'
    } else if d == 7 {
        '7'
    } else if d == 8 {
        '8'
    } else {
        '9'
    }
}

fn digit_char_exec(d: u64) -> (c: char)
    requires
        d < 10,
    ensures
        c == digit_char(d as nat),
{
    if d == 0 {
        '0'
    } else if d == 1 {
        '1'
    } else if d == 2 {
        '2'
    } else if d == 3 {
        '3'
    } else if d == 4 {
        '4'
    } else if d == 5 {
        '5'
    } else if d == 6 {
        '6'
    } else if d == 7 {
        '7'
    } else if d == 8 {
        '8'
    } else {
        '9'
    }
}

/// The decimal text of `n` (`n.to_string()` for an unsigned integer).
pub open spec fn decimal(n: nat) -> Seq<char>
    decreases n,
{
    if n < 10 {
        seq![digit_char(n)]
    } else {
        decimal(n / 10).push(digit_char(n % 10))
    }
}

/// A digit's character is a digit worth it.
pub proof fn lemma_digit_char(k: nat)
    requires
        k < 10,
    ensures
        is_digit(digit_char(k)),
        digit_value(digit_char(k)) == k,
{
}

/// The decimal text of `n` is made of digits and denotes `n`.
pub proof fn lemma_decimal_value(n: nat)
    ensures
        decimal(n).len() >= 1,
        all_digits(decimal(n)),
        digits_value(decimal(n)) == n,
    decreases n,
{
    if n < 10 {
        lemma_digit_char(n);
        assert(decimal(n).drop_last() =~= Seq::<char>::empty());
        assert(digits_value(decimal(n)) == digits_value(decimal(n).drop_last()) * 10 + digit_value(decimal(n).last()));
    } else {
        lemma_decimal_value(n / 10);
        lemma_digit_char(n % 10);
        let s = decimal(n);
        assert(s.drop_last() =~= decimal(n / 10));
        assert(s.last() == digit_char(n % 10));
        assert(digits_value(s) == digits_value(s.drop_last()) * 10 + digit_value(s.last()));
        assert((n / 10) * 10 + n % 10 == n);
        assert forall|i: int| 0 <= i < s.len() implies is_digit(#[trigger] s[i]) by {
            if i < s.len() - 1 {
                assert(s[i] == decimal(n / 10)[i]);
            }
        }
    }
}

/// `k` zeros.
pub open spec fn zeros(k: nat) -> Seq<char> {
    Seq::new(k, |i: int| '0')
}

/// Leading zeros change neither that a text is made of digits nor its value.
pub proof fn lemma_leading_zeros(k: nat, s: Seq<char>)
    requires
        all_digits(s),
    ensures
        all_digits(zeros(k) + s),
        digits_value(zeros(k) + s) == digits_value(s),
    decreases s.len() + k,
{
    let z = zeros(k);
    assert forall|i: int| 0 <= i < (z + s).len() implies is_digit(#[trigger] (z + s)[i]) by {
        if i >= k {
            assert((z + s)[i] == s[i - k]);
        }
    }
    if s.len() == 0 {
        assert(z + s =~= z);
        if k > 0 {
            lemma_leading_zeros((k - 1) as nat, s);
            assert(z.drop_last() =~= zeros((k - 1) as nat) + s);
        }
    } else {
        lemma_leading_zeros(k, s.drop_last());
        assert((z + s).drop_last() =~= z + s.drop_last());
        assert((z + s).last() == s.last());
    }
}

/// Appends the decimal text of `n`.
pub fn push_decimal(s: &mut String, n: u64)
    ensures
        final(s)@ == old(s)@ + decimal(n as nat),
    decreases n,
{
    if n < 10 {
        push_char(s, digit_char_exec(n));
        assert(final(s)@ =~= old(s)@ + decimal(n as nat)) by {
            assert(decimal(n as nat) =~= seq![digit_char(n as nat)]);
        }
    } else {
        push_decimal(s, n / 10);
        push_char(s, digit_char_exec(n % 10));
        assert(decimal(n as nat) == decimal((n / 10) as nat).push(digit_char((n % 10) as nat)));
        assert(final(s)@ =~= old(s)@ + decimal(n as nat));
    }
}

/// Appends a string slice.
pub fn push_text(s: &mut String, t: &str)
    ensures
        final(s)@ == old(s)@ + t@,
{
    s.append(t);
}


// ── Case and substrings ──────────────────────────────────────────────────────
/// Every character is ASCII.
pub open spec fn is_ascii_text(s: Seq<char>) -> bool {
    forall|i: int| 0 <= i < s.len() ==> (#[trigger] s[i] as u32) < 128
}

/// ASCII letters lowercased, the rest as it is (`to_ascii_lowercase`).
pub open spec fn ascii_lower(s: Seq<char>) -> Seq<char> {
    s.map_values(|c: char| if 'A' <= c && c <= 'Z' {
        ((c as u32) + 32) as char
    } else {
        c
    })
}

/// What `str::to_lowercase` gives for `s` (Unicode's lowercase mapping).
pub uninterp spec fn lowercase_of(s: Seq<char>) -> Seq<char>;

/// `str::to_lowercase`. Claimed: its result is named by `lowercase_of`, and
/// on ASCII text it is the ASCII lowercasing (`A`-`Z` become `a`-`z`, the
/// rest stays), as std documents for `to_lowercase` on ASCII input.
#[verifier::external_body]
pub(crate) fn lowercase(s: &str) -> (r: String)
    ensures
        r@ == lowercase_of(s@),
        is_ascii_text(s@) ==> r@ == ascii_lower(s@),
{
    s.to_lowercase()
}

/// Whether `needle` occurs in `hay` (`str::contains` with a string).
pub open spec fn text_contains(hay: Seq<char>, needle: Seq<char>) -> bool {
    exists|i: int|
        0 <= i && i + needle.len() <= hay.len() && #[trigger] hay.subrange(i, i + needle.len())
            == needle
}

/// `hay.contains(needle)`.
pub fn contains_text(hay: &str, needle: &str) -> (r: bool)
    ensures
        r == text_contains(hay@, needle@),
{
    let h = chars_of(hay);
    let n = chars_of(needle);
    let hl = h.len();
    let mut i: usize = 0;
    while i <= hl && n.len() <= hl - i
        invariant
            hl == h@.len(),
            h@ == hay@,
            n@ == needle@,
            i <= h@.len() + 1,
            forall|j: int| 0 <= j < i ==> j + n@.len() > h@.len() || #[trigger] h@.subrange(j, j + n@.len()) != n@,
        decreases h@.len() + 1 - i,
    {
        let mut k: usize = 0;
        let mut same = true;
        while same && k < n.len()
            invariant
                hl == h@.len(),
                h@ == hay@,
                n@ == needle@,
                i + n@.len() <= h@.len(),
                k <= n@.len(),
                forall|m: int| 0 <= m < k ==> h@[i + m] == n@[m],
                !same ==> k < n@.len() && h@[i + k] != n@[k as int],
            decreases n@.len() - k + (if same { 1int } else { 0int }),
        {
            if h[i + k] != n[k] {
                same = false;
            } else {
                k = k + 1;
            }
        }
        if k == n.len() {
            assert(h@.subrange(i as int, i + n@.len()) =~= n@);
            return true;
        }
        assert(h@.subrange(i as int, i + n@.len())[k as int] != n@[k as int]);
        i = i + 1;
    }
    assert forall|j: int| 0 <= j && j + needle@.len() <= hay@.len() implies #[trigger] hay@.subrange(
        j,
        j + needle@.len(),
    ) != needle@ by {
        assert(j < i);
    }
    false
}

/// The lowercase letter of an ASCII capital.
pub fn ascii_shift(c: char) -> (r: char)
    requires
        'A' <= c && c <= 'Z',
    ensures
        r == ((c as u32) + 32) as char,
{
    let b: u8 = c as u8;
    (b + 32) as char
}


/// Whether `s` reads as an unsigned number of any size.
pub fn is_unsigned_text(s: &str) -> (r: bool)
    ensures
        r == unsigned_text_value(s@) is Some,
{
    let v = chars_of(s);
    let from: usize = if v.len() > 1 && v[0] == '+' {
        1
    } else {
        0
    };
    let ghost body = if s@.len() > 1 && s@[0] == '+' {
        s@.drop_first()
    } else {
        s@
    };
    assert(body =~= v@.subrange(from as int, v@.len() as int));
    if v.len() == from {
        return false;
    }
    let mut i: usize = from;
    while i < v.len()
        invariant
            v@ == s@,
            from <= i <= v@.len(),
            body == v@.subrange(from as int, v@.len() as int),
            body == (if s@.len() > 1 && s@[0] == '+' {
                s@.drop_first()
            } else {
                s@
            }),
            forall|k: int| from <= k < i ==> is_digit(#[trigger] v@[k]),
        decreases v@.len() - i,
    {
        let c = v[i];
        proof {
            lemma_char_code(c);
        }
        if !((c as u32) >= 48 && (c as u32) <= 57) {
            assert(body[i - from] == c);
            assert(!is_digit(body[i - from]));
            assert(!all_digits(body));
            assert(unsigned_text_value(s@) is None);
            return false;
        }
        i = i + 1;
    }
    assert forall|k: int| 0 <= k < body.len() implies is_digit(#[trigger] body[k]) by {
        assert(body[k] == v@[k + from]);
    }
    true
}

} // verus!
