//! Character-level helpers for the assembler: whitespace, trimming, comments,
//! case folding, tokenising, numbers and message building.

use vstd::prelude::*;

verus! {

/// Whether a character is white space (the Unicode `White_Space` set).
pub open spec fn is_ws(c: char) -> bool {
    let u = c as u32;
    u == 0x20 || (0x09 <= u <= 0x0d) || u == 0x85 || u == 0xa0 || u == 0x1680 || (0x2000 <= u
        <= 0x200a) || u == 0x2028 || u == 0x2029 || u == 0x202f || u == 0x205f || u == 0x3000
}

/// Whether a character is white space.
pub fn is_space(c: char) -> (r: bool)
    ensures
        r == is_ws(c),
{
    let u = c as u32;
    u == 0x20 || (0x09 <= u && u <= 0x0d) || u == 0x85 || u == 0xa0 || u == 0x1680 || (0x2000 <= u
        && u <= 0x200a) || u == 0x2028 || u == 0x2029 || u == 0x202f || u == 0x205f || u == 0x3000
}

/// The text without its leading white space.
pub open spec fn trim_start(s: Seq<char>) -> Seq<char>
    decreases s.len(),
{
    if s.len() > 0 && is_ws(s[0]) {
        trim_start(s.drop_first())
    } else {
        s
    }
}

/// The text without its trailing white space.
pub open spec fn trim_end(s: Seq<char>) -> Seq<char>
    decreases s.len(),
{
    if s.len() > 0 && is_ws(s.last()) {
        trim_end(s.drop_last())
    } else {
        s
    }
}

/// The text without white space at either end.
pub open spec fn trim(s: Seq<char>) -> Seq<char> {
    trim_end(trim_start(s))
}

/// Whether a comment (`;` or `//`) starts at position `i`.
pub open spec fn comment_at(s: Seq<char>, i: int) -> bool {
    s[i] == ';' || (s[i] == '/' && i + 1 < s.len() && s[i + 1] == '/')
}

/// The text up to the first comment marker.
pub open spec fn strip_comment(s: Seq<char>) -> Seq<char>
    decreases s.len(),
{
    if s.len() == 0 || comment_at(s, 0) {
        Seq::empty()
    } else {
        seq![s[0]] + strip_comment(s.drop_first())
    }
}

/// The position of the first `c`, or the length when there is none.
pub open spec fn first_index(s: Seq<char>, c: char) -> int
    decreases s.len(),
{
    if s.len() == 0 || s[0] == c {
        0
    } else {
        1 + first_index(s.drop_first(), c)
    }
}

/// The text in lower case, as Unicode defines it.
pub uninterp spec fn lower_of(s: Seq<char>) -> Seq<char>;

/// Relies on `str::to_lowercase`: the Unicode lower case of the text, which depends on
/// the text alone.
#[verifier::external_body]
fn lowercase_str(s: &str) -> (r: String)
    ensures
        r@ == lower_of(s@),
{
    s.to_lowercase()
}

/// What a character of an instruction becomes before splitting: a comma is a space,
/// brackets and `+` stand apart.
pub open spec fn norm_char(c: char) -> Seq<char> {
    if c == ',' {
        seq![' ']
    } else if c == '[' || c == ']' || c == '+' {
        seq![' ', c, ' ']
    } else {
        seq![c]
    }
}

/// The instruction text after normalisation.
pub open spec fn normalize(s: Seq<char>) -> Seq<char>
    decreases s.len(),
{
    if s.len() == 0 {
        Seq::empty()
    } else {
        normalize(s.drop_last()) + norm_char(s.last())
    }
}

/// Splitting state after a prefix: the finished pieces and the piece in progress.
pub open spec fn split_state(s: Seq<char>, is_sep: spec_fn(char) -> bool, keep_empty: bool) -> (
    Seq<Seq<char>>,
    Seq<char>,
)
    decreases s.len(),
{
    if s.len() == 0 {
        (Seq::empty(), Seq::empty())
    } else {
        let (done, cur) = split_state(s.drop_last(), is_sep, keep_empty);
        if is_sep(s.last()) {
            if keep_empty || cur.len() > 0 {
                (done.push(cur), Seq::empty())
            } else {
                (done, Seq::empty())
            }
        } else {
            (done, cur.push(s.last()))
        }
    }
}

/// The pieces between separators; the last piece counts only when it is not empty, and
/// empty pieces elsewhere count only when `keep_empty`.
pub open spec fn split(s: Seq<char>, is_sep: spec_fn(char) -> bool, keep_empty: bool) -> Seq<
    Seq<char>,
> {
    let (done, cur) = split_state(s, is_sep, keep_empty);
    if cur.len() > 0 {
        done.push(cur)
    } else {
        done
    }
}

/// The lines of a text, split at line feeds.
pub open spec fn lines(s: Seq<char>) -> Seq<Seq<char>> {
    split(s, |c: char| c == '\n', true)
}

/// The tokens of an instruction: the normalised text, in lower case, split at white space.
pub open spec fn tokens(s: Seq<char>) -> Seq<Seq<char>> {
    split(lower_of(normalize(s)), |c: char| is_ws(c), false)
}

/// The decimal digits of a number.
pub open spec fn decimal(n: nat) -> Seq<char>
    decreases n,
{
    if n < 10 {
        seq![digit_char(n)]
    } else {
        decimal(n / 10).push(digit_char(n % 10))
    }
}

/// The character of a decimal digit.
pub open spec fn digit_char(d: nat) -> char {
    (('0' as u32) + d) as char
}

/// The value of a digit character in base up to sixteen; 99 for any other character.
pub open spec fn digit_value(c: char) -> nat {
    if '0' <= c <= '9' {
        (c as u32 - '0' as u32) as nat
    } else if 'a' <= c <= 'f' {
        (c as u32 - 'a' as u32 + 10) as nat
    } else if 'A' <= c <= 'F' {
        (c as u32 - 'A' as u32 + 10) as nat
    } else {
        99
    }
}

/// Whether every character is a digit in base `radix`.
pub open spec fn all_digits(s: Seq<char>, radix: nat) -> bool {
    forall|i: int| 0 <= i < s.len() ==> digit_value(#[trigger] s[i]) < radix
}

/// The value of a run of digits in base `radix`.
pub open spec fn digits_value(s: Seq<char>, radix: nat) -> nat
    decreases s.len(),
{
    if s.len() == 0 {
        0
    } else {
        radix * digits_value(s.drop_last(), radix) + digit_value(s.last())
    }
}

/// The integer an optional sign and a non-empty run of digits in base `radix` denote.
pub open spec fn parse_int(s: Seq<char>, radix: nat) -> Option<int> {
    let neg = s.len() > 0 && s[0] == '-';
    let body = if s.len() > 0 && (s[0] == '-' || s[0] == '+') {
        s.drop_first()
    } else {
        s
    };
    if body.len() > 0 && all_digits(body, radix) {
        Some(
            if neg {
                -digits_value(body, radix)
            } else {
                digits_value(body, radix) as int
            },
        )
    } else {
        None
    }
}

/// Relies on `String::push`: appends one character.
#[verifier::external_body]
pub(crate) fn push_char(s: &mut String, c: char)
    ensures
        final(s)@ == old(s)@.push(c),
{
    s.push(c);
}

/// Appends characters to a string.
pub fn push_chars(s: &mut String, cs: &Vec<char>)
    ensures
        final(s)@ == old(s)@ + cs@,
{
    let mut i: usize = 0;
    while i < cs.len()
        invariant
            i <= cs@.len(),
            s@ == old(s)@ + cs@.take(i as int),
        decreases cs@.len() - i,
    {
        push_char(s, cs[i]);
        i += 1;
        assert(s@ =~= old(s)@ + cs@.take(i as int));
    }
    assert(cs@.take(cs@.len() as int) =~= cs@);
}

/// A string of the given characters.
pub fn string_of(cs: &Vec<char>) -> (r: String)
    ensures
        r@ == cs@,
{
    let mut s = String::new();
    push_chars(&mut s, cs);
    assert(s@ =~= cs@);
    s
}

/// A string that joins a literal and some characters.
pub fn message(prefix: &str, cs: &Vec<char>) -> (r: String)
    ensures
        r@ == prefix@ + cs@,
{
    let mut s = String::from_str(prefix);
    push_chars(&mut s, cs);
    s
}

/// Appends the decimal digits of `n`.
pub fn push_decimal(s: &mut String, n: usize)
    ensures
        final(s)@ == old(s)@ + decimal(n as nat),
    decreases n,
{
    if n >= 10 {
        push_decimal(s, n / 10);
    }
    let d = (n % 10) as u32;
    let c = (('0' as u32 + d) as u8) as char;
    assert(c == digit_char((n % 10) as nat));
    push_char(s, c);
    assert(s@ =~= old(s)@ + decimal(n as nat));
}

/// Whether the characters spell the given text.
pub fn eq_lit(cs: &Vec<char>, lit: &str) -> (r: bool)
    ensures
        r == (cs@ == lit@),
{
    let l = crate::components::chars_of(lit);
    if l.len() != cs.len() {
        return false;
    }
    let mut i: usize = 0;
    while i < cs.len()
        invariant
            l@ == lit@,
            l@.len() == cs@.len(),
            i <= cs@.len(),
            forall|j: int| 0 <= j < i ==> cs@[j] == l@[j],
        decreases cs@.len() - i,
    {
        if cs[i] != l[i] {
            return false;
        }
        i += 1;
    }
    assert(cs@ =~= l@);
    true
}

/// The views of a sequence of character vectors.
pub open spec fn views(v: Seq<Vec<char>>) -> Seq<Seq<char>> {
    v.map_values(|x: Vec<char>| x@)
}

/// The lines of a text, split at line feeds.
pub fn split_lines(s: &Vec<char>) -> (r: Vec<Vec<char>>)
    ensures
        views(r@) == lines(s@),
{
    let ghost sep = |c: char| c == '\n';
    let mut done: Vec<Vec<char>> = Vec::new();
    let mut cur: Vec<char> = Vec::new();
    let mut i: usize = 0;
    while i < s.len()
        invariant
            i <= s@.len(),
            sep == (|c: char| c == '\n'),
            (views(done@), cur@) == split_state(s@.take(i as int), sep, true),
        decreases s@.len() - i,
    {
        assert(s@.take(i + 1).drop_last() =~= s@.take(i as int));
        assert(s@.take(i + 1).last() == s@[i as int]);
        if s[i] == '\n' {
            let piece = cur;
            cur = Vec::new();
            done.push(piece);
            assert(views(done@) =~= split_state(s@.take(i as int), sep, true).0.push(piece@));
        } else {
            cur.push(s[i]);
        }
        i += 1;
    }
    assert(s@.take(i as int) =~= s@);
    if cur.len() > 0 {
        let piece = cur;
        done.push(piece);
        assert(views(done@) =~= split_state(s@, sep, true).0.push(piece@));
    }
    done
}

/// The pieces of a text between runs of white space.
pub fn split_ws(s: &Vec<char>) -> (r: Vec<Vec<char>>)
    ensures
        views(r@) == split(s@, |c: char| is_ws(c), false),
{
    let ghost sep = |c: char| is_ws(c);
    let mut done: Vec<Vec<char>> = Vec::new();
    let mut cur: Vec<char> = Vec::new();
    let mut i: usize = 0;
    while i < s.len()
        invariant
            i <= s@.len(),
            sep == (|c: char| is_ws(c)),
            (views(done@), cur@) == split_state(s@.take(i as int), sep, false),
        decreases s@.len() - i,
    {
        assert(s@.take(i + 1).drop_last() =~= s@.take(i as int));
        assert(s@.take(i + 1).last() == s@[i as int]);
        if is_space(s[i]) {
            if cur.len() > 0 {
                let piece = cur;
                cur = Vec::new();
                done.push(piece);
                assert(views(done@) =~= split_state(s@.take(i as int), sep, false).0.push(piece@));
            }
        } else {
            cur.push(s[i]);
        }
        i += 1;
    }
    assert(s@.take(i as int) =~= s@);
    if cur.len() > 0 {
        let piece = cur;
        done.push(piece);
        assert(views(done@) =~= split_state(s@, sep, false).0.push(piece@));
    }
    done
}

/// The instruction text after normalisation.
pub fn normalized(s: &Vec<char>) -> (r: Vec<char>)
    ensures
        r@ == normalize(s@),
{
    let mut out: Vec<char> = Vec::new();
    let mut i: usize = 0;
    while i < s.len()
        invariant
            i <= s@.len(),
            out@ == normalize(s@.take(i as int)),
        decreases s@.len() - i,
    {
        assert(s@.take(i + 1).drop_last() =~= s@.take(i as int));
        assert(s@.take(i + 1).last() == s@[i as int]);
        let c = s[i];
        if c == ',' {
            out.push(' ');
        } else if c == '[' || c == ']' || c == '+' {
            out.push(' ');
            out.push(c);
            out.push(' ');
        } else {
            out.push(c);
        }
        assert(out@ =~= normalize(s@.take(i + 1)));
        i += 1;
    }
    assert(s@.take(i as int) =~= s@);
    out
}

/// The tokens of an instruction.
pub fn tokenize(s: &Vec<char>) -> (r: Vec<Vec<char>>)
    ensures
        views(r@) == tokens(s@),
{
    let n = normalized(s);
    let l = lowered(&n);
    split_ws(&l)
}

/// The text in lower case, as Unicode defines it.
pub fn lowered(s: &Vec<char>) -> (r: Vec<char>)
    ensures
        r@ == lower_of(s@),
{
    let text = string_of(s);
    let low = lowercase_str(text.as_str());
    crate::components::chars_of(low.as_str())
}

/// The characters `s[from..to]`.
pub fn slice_of(s: &Vec<char>, from: usize, to: usize) -> (r: Vec<char>)
    requires
        from <= to <= s@.len(),
    ensures
        r@ == s@.subrange(from as int, to as int),
{
    let mut out: Vec<char> = Vec::new();
    let mut i: usize = from;
    while i < to
        invariant
            from <= i <= to <= s@.len(),
            out@ == s@.subrange(from as int, i as int),
        decreases to - i,
    {
        out.push(s[i]);
        i += 1;
        assert(out@ =~= s@.subrange(from as int, i as int));
    }
    out
}

proof fn lemma_trim_start_skip(s: Seq<char>, i: int)
    requires
        0 <= i <= s.len(),
        forall|j: int| 0 <= j < i ==> is_ws(s[j]),
    ensures
        trim_start(s) == trim_start(s.skip(i)),
    decreases i,
{
    if i > 0 {
        assert(s.skip(1) =~= s.drop_first());
        lemma_trim_start_skip(s.drop_first(), i - 1);
        assert(s.drop_first().skip(i - 1) =~= s.skip(i));
    } else {
        assert(s.skip(0) =~= s);
    }
}

proof fn lemma_trim_end_take(s: Seq<char>, i: int)
    requires
        0 <= i <= s.len(),
        forall|j: int| i <= j < s.len() ==> is_ws(s[j]),
    ensures
        trim_end(s) == trim_end(s.take(i)),
    decreases s.len() - i,
{
    if i < s.len() {
        lemma_trim_end_take(s.drop_last(), i);
        assert(s.drop_last().take(i) =~= s.take(i));
    } else {
        assert(s.take(i) =~= s);
    }
}

/// The text without white space at either end.
pub fn trimmed(s: &Vec<char>) -> (r: Vec<char>)
    ensures
        r@ == trim(s@),
{
    let mut a: usize = 0;
    while a < s.len() && is_space(s[a])
        invariant
            a <= s@.len(),
            forall|j: int| 0 <= j < a ==> is_ws(s@[j]),
        decreases s@.len() - a,
    {
        a += 1;
    }
    proof {
        lemma_trim_start_skip(s@, a as int);
    }
    let mut b: usize = s.len();
    while b > a && is_space(s[b - 1])
        invariant
            a <= b <= s@.len(),
            forall|j: int| b <= j < s@.len() ==> is_ws(s@[j]),
        decreases b,
    {
        b -= 1;
    }
    let ghost t = s@.skip(a as int);
    proof {
        assert(trim_start(t) == t);
        lemma_trim_end_take(t, b - a);
        assert(t.take(b - a) =~= s@.subrange(a as int, b as int));
        let u = s@.subrange(a as int, b as int);
        assert(trim_end(u) == u);
    }
    slice_of(s, a, b)
}

proof fn lemma_strip_comment_split(s: Seq<char>, i: int)
    requires
        0 <= i <= s.len(),
        forall|j: int| 0 <= j < i ==> !comment_at(s, j),
    ensures
        strip_comment(s) == s.take(i) + strip_comment(s.skip(i)),
    decreases i,
{
    if i > 0 {
        assert forall|j: int| 0 <= j < i - 1 implies !comment_at(s.drop_first(), j) by {
            assert(!comment_at(s, j + 1));
        }
        lemma_strip_comment_split(s.drop_first(), i - 1);
        assert(s.drop_first().skip(i - 1) =~= s.skip(i));
        assert(s.take(i) =~= seq![s[0]] + s.drop_first().take(i - 1));
        assert(!comment_at(s, 0));
    } else {
        assert(s.skip(0) =~= s);
        assert(s.take(0) =~= Seq::<char>::empty());
    }
}

/// The text up to the first comment marker.
pub fn without_comment(s: &Vec<char>) -> (r: Vec<char>)
    ensures
        r@ == strip_comment(s@),
{
    let mut i: usize = 0;
    while i < s.len()
        invariant
            i <= s@.len(),
            forall|j: int| 0 <= j < i ==> !comment_at(s@, j),
        decreases s@.len() - i,
    {
        if s[i] == ';' || (s[i] == '/' && i + 1 < s.len() && s[i + 1] == '/') {
            proof {
                lemma_strip_comment_split(s@, i as int);
                assert(comment_at(s@.skip(i as int), 0));
                assert(s@.take(i as int) + Seq::<char>::empty() =~= s@.take(i as int));
            }
            return slice_of(s, 0, i);
        }
        i += 1;
    }
    proof {
        lemma_strip_comment_split(s@, i as int);
        assert(s@.skip(i as int) =~= Seq::<char>::empty());
        assert(s@.take(i as int) + Seq::<char>::empty() =~= s@);
    }
    slice_of(s, 0, s.len())
}

proof fn lemma_first_index(s: Seq<char>, c: char, i: int)
    requires
        0 <= i <= s.len(),
        forall|j: int| 0 <= j < i ==> s[j] != c,
        i == s.len() || s[i] == c,
    ensures
        first_index(s, c) == i,
    decreases i,
{
    if i > 0 {
        lemma_first_index(s.drop_first(), c, i - 1);
    }
}

/// The position of the first `c`, or the length when there is none.
pub fn find_char(s: &Vec<char>, c: char) -> (r: usize)
    ensures
        r == first_index(s@, c),
        r <= s@.len(),
{
    let mut i: usize = 0;
    while i < s.len() && s[i] != c
        invariant
            i <= s@.len(),
            forall|j: int| 0 <= j < i ==> s@[j] != c,
        decreases s@.len() - i,
    {
        i += 1;
    }
    proof {
        lemma_first_index(s@, c, i as int);
    }
    i
}

proof fn lemma_digits_monotone(s: Seq<char>, i: int, radix: nat)
    requires
        0 <= i <= s.len(),
        radix >= 1,
    ensures
        digits_value(s.take(i), radix) <= digits_value(s, radix),
    decreases s.len() - i,
{
    if i < s.len() {
        lemma_digits_monotone(s, i + 1, radix);
        assert(s.take(i + 1).drop_last() =~= s.take(i));
        let v = digits_value(s.take(i), radix);
        assert(v <= radix * v) by (nonlinear_arith)
            requires
                radix >= 1,
        ;
    } else {
        assert(s.take(i) =~= s);
    }
}

/// The integer that an optional sign and a run of digits in base `radix` denote, when
/// it lies in `-32768..=max`.
pub fn parse_number(s: &Vec<char>, radix: u32, max: u32) -> (r: Option<i32>)
    requires
        2 <= radix <= 16,
        max <= 65535,
    ensures
        r == (match parse_int(s@, radix as nat) {
            Some(v) => if -32768 <= v <= max {
                Some(v as i32)
            } else {
                None
            },
            None => None,
        }),
{
    let neg = s.len() > 0 && s[0] == '-';
    let start: usize = if s.len() > 0 && (s[0] == '-' || s[0] == '+') {
        1
    } else {
        0
    };
    let ghost body = if s@.len() > 0 && (s@[0] == '-' || s@[0] == '+') {
        s@.drop_first()
    } else {
        s@
    };
    assert(body =~= s@.skip(start as int));
    if start >= s.len() {
        return None;
    }
    let mut acc: u32 = 0;
    let mut i: usize = start;
    while i < s.len()
        invariant
            start <= i <= s@.len(),
            body == s@.skip(start as int),
            body == (if s@.len() > 0 && (s@[0] == '-' || s@[0] == '+') {
                s@.drop_first()
            } else {
                s@
            }),
            body.len() > 0,
            neg == (s@.len() > 0 && s@[0] == '-'),
            max <= 65535,
            2 <= radix <= 16,
            acc <= 70000,
            acc == digits_value(body.take(i - start), radix as nat),
            all_digits(body.take(i - start), radix as nat),
        decreases s@.len() - i,
    {
        let c = s[i];
        let d: u32 = if '0' <= c && c <= '9' {
            c as u32 - '0' as u32
        } else if 'a' <= c && c <= 'f' {
            c as u32 - 'a' as u32 + 10
        } else if 'A' <= c && c <= 'F' {
            c as u32 - 'A' as u32 + 10
        } else {
            99
        };
        assert(d == digit_value(c));
        assert(body[i - start] == c);
        if d >= radix {
            assert(digit_value(body[i - start]) >= radix);
            assert(!all_digits(body, radix as nat));
            assert(parse_int(s@, radix as nat) is None);
            return None;
        }
        assert(body.take(i + 1 - start).drop_last() =~= body.take(i - start));
        assert(body.take(i + 1 - start).last() == c);
        assert(all_digits(body.take(i + 1 - start), radix as nat));
        assert(digits_value(body.take(i + 1 - start), radix as nat) == radix * acc + d);
        assert(radix * acc + d <= 70000 * 16 + 16) by (nonlinear_arith)
            requires
                acc <= 70000,
                radix <= 16,
                d < 16,
        ;
        acc = radix * acc + d;
        i += 1;
        if acc > 70000 {
            proof {
                if all_digits(body, radix as nat) {
                    lemma_digits_monotone(body, i - start, radix as nat);
                    assert(digits_value(body, radix as nat) > 70000);
                    assert(parse_int(s@, radix as nat) == Some(
                        if neg {
                            -digits_value(body, radix as nat)
                        } else {
                            digits_value(body, radix as nat) as int
                        },
                    ));
                    let v = parse_int(s@, radix as nat)->Some_0;
                    assert(!(-32768 <= v <= max));
                } else {
                    assert(parse_int(s@, radix as nat) is None);
                }
            }
            return None;
        }
    }
    assert(body.take(i - start) =~= body);
    if neg {
        if acc > 32768 {
            None
        } else {
            Some(-(acc as i32))
        }
    } else {
        if acc > max {
            None
        } else {
            Some(acc as i32)
        }
    }
}

} // verus!
