use vstd::prelude::*;

verus! {

/// The characters that Unicode gives the `White_Space` property.
pub open spec fn is_white_space(c: char) -> bool {
    ||| ('\u{9}' <= c && c <= '\u{d}')
    ||| c == ' '
    ||| c == '\u{85}'
    ||| c == '\u{a0}'
    ||| c == '\u{1680}'
    ||| ('\u{2000}' <= c && c <= '\u{200a}')
    ||| c == '\u{2028}'
    ||| c == '\u{2029}'
    ||| c == '\u{202f}'
    ||| c == '\u{205f}'
    ||| c == '\u{3000}'
}

/// Whether `c` is a Unicode white-space character.
pub fn is_white_space_char(c: char) -> (r: bool)
    ensures
        r == is_white_space(c),
{
    (c >= '\u{9}' && c <= '\u{d}') || c == ' ' || c == '\u{85}' || c == '\u{a0}' || c == '\u{1680}'
        || (c >= '\u{2000}' && c <= '\u{200a}') || c == '\u{2028}' || c == '\u{2029}'
        || c == '\u{202f}' || c == '\u{205f}' || c == '\u{3000}'
}

/// The characters of a string, in order.
pub fn chars_of(s: &str) -> (r: Vec<char>)
    ensures
        r@ == s@,
{
    let mut r: Vec<char> = Vec::new();
    let n = s.unicode_len();
    let mut i: usize = 0;
    while i < n
        invariant
            n == s@.len(),
            i <= n,
            r@ == s@.take(i as int),
        decreases n - i,
    {
        let c = s.get_char(i);
        r.push(c);
        i = i + 1;
        assert(r@ =~= s@.take(i as int));
    }
    assert(r@ =~= s@);
    r
}


/// `String`'s `FromIterator<&char>` (reached through `collect`): the string
/// whose characters are exactly those of `cs`, in order.
#[verifier::external_body]
pub(crate) fn string_from_chars(cs: &Vec<char>) -> (r: String)
    ensures
        r@ == cs@,
{
    cs.iter().collect()
}

pub open spec fn is_ascii_letter(c: char) -> bool {
    ('a' <= c && c <= 'z') || ('A' <= c && c <= 'Z')
}

pub open spec fn is_ascii_digit(c: char) -> bool {
    '0' <= c && c <= '9'
}

/// Whether a `*` belongs between two adjacent characters of an expression:
/// `5t`, `5(`, `t5`, `)5`, `)t` and `)(` all read as products.
pub open spec fn needs_mul(cur: char, next: char) -> bool {
    ||| is_ascii_digit(cur) && (is_ascii_letter(next) || next == '(')
    ||| (is_ascii_letter(cur) || cur == ')') && is_ascii_digit(next)
    ||| cur == ')' && (is_ascii_letter(next) || next == '(')
}

/// `cs` with a `*` inserted between every adjacent pair that `needs_mul`.
pub open spec fn with_implicit_mul(cs: Seq<char>) -> Seq<char>
    decreases cs.len(),
{
    if cs.len() <= 1 {
        cs
    } else {
        let init = cs.drop_last();
        let star = if needs_mul(cs[cs.len() - 2], cs[cs.len() - 1]) {
            seq!['*']
        } else {
            Seq::<char>::empty()
        };
        with_implicit_mul(init) + star + seq![cs[cs.len() - 1]]
    }
}

/// What `insert_implicit_mul` makes of `s`: white space dropped, then the
/// implicit products written out.
pub open spec fn implicit_mul_spec(s: Seq<char>) -> Seq<char> {
    with_implicit_mul(s.filter(|c: char| !is_white_space(c)))
}

fn needs_mul_exec(cur: char, next: char) -> (r: bool)
    ensures
        r == needs_mul(cur, next),
{
    let cur_digit = cur >= '0' && cur <= '9';
    let cur_letter = (cur >= 'a' && cur <= 'z') || (cur >= 'A' && cur <= 'Z');
    let next_digit = next >= '0' && next <= '9';
    let next_letter = (next >= 'a' && next <= 'z') || (next >= 'A' && next <= 'Z');
    (cur_digit && (next_letter || next == '(')) || ((cur_letter || cur == ')') && next_digit) || (
    cur == ')' && (next_letter || next == '('))
}

/// Rewrites an expression so that juxtaposition means multiplication:
/// white space is removed and `*` is inserted wherever a digit meets a
/// letter or `(`, a letter or `)` meets a digit, or `)` meets a letter or
/// `(` (so `3sin(2t)` becomes `3*sin(2*t)`).
pub fn insert_implicit_mul(expr: &str) -> (out: String)
    ensures
        out@ == implicit_mul_spec(expr@),
        no_white_space(out@),
{
    let all = chars_of(expr);
    let mut chars: Vec<char> = Vec::new();
    let mut k: usize = 0;
    while k < all.len()
        invariant
            k <= all@.len(),
            all@ == expr@,
            chars@ == all@.take(k as int).filter(|c: char| !is_white_space(c)),
        decreases all.len() - k,
    {
        let c = all[k];
        proof {
            let f = |c: char| !is_white_space(c);
            assert(all@.take(k + 1).drop_last() =~= all@.take(k as int));
            all@.take(k as int).lemma_filter_push(c, f);
            assert(all@.take(k as int).push(c) =~= all@.take(k + 1));
        }
        if !is_white_space_char(c) {
            chars.push(c);
        }
        k = k + 1;
    }
    assert(all@.take(all@.len() as int) =~= all@);
    let ghost cs = chars@;
    let mut out: Vec<char> = Vec::new();
    if chars.len() > 0 {
        out.push(chars[0]);
        assert(cs.take(1) =~= seq![cs[0]]);
        let mut i: usize = 1;
        while i < chars.len()
            invariant
                1 <= i <= chars@.len(),
                cs == chars@,
                out@ == with_implicit_mul(cs.take(i as int)),
            decreases chars.len() - i,
        {
            let prev = chars[i - 1];
            let cur = chars[i];
            proof {
                let t = cs.take(i + 1);
                assert(t.drop_last() =~= cs.take(i as int));
                assert(t[t.len() - 2] == prev);
                assert(t[t.len() - 1] == cur);
            }
            if needs_mul_exec(prev, cur) {
                out.push('*');
            }
            out.push(cur);
            i = i + 1;
            proof {
                let t = cs.take(i as int);
                let star = if needs_mul(prev, cur) { seq!['*'] } else { Seq::<char>::empty() };
                assert(with_implicit_mul(t) == with_implicit_mul(t.drop_last()) + star + seq![cur]);
            }
        }
        assert(cs.take(cs.len() as int) =~= cs);
    } else {
        assert(cs =~= Seq::<char>::empty());
    }
    proof {
        let f = |c: char| !is_white_space(c);
        assert forall|i: int| 0 <= i < cs.len() implies !is_white_space(#[trigger] cs[i]) by {
            expr@.lemma_filter_pred(f, i);
        }
        lemma_implicit_mul_shape(cs);
    }
    string_from_chars(&out)
}


/// No two adjacent characters of `s` call for a `*` between them.
pub open spec fn no_pending_mul(s: Seq<char>) -> bool {
    forall|i: int| 0 <= i < s.len() - 1 ==> !#[trigger] needs_mul(s[i], s[i + 1])
}

/// No character of `s` is white space.
pub open spec fn no_white_space(s: Seq<char>) -> bool {
    forall|i: int| 0 <= i < s.len() ==> !is_white_space(#[trigger] s[i])
}

proof fn lemma_filter_keeps_all(s: Seq<char>)
    requires
        no_white_space(s),
    ensures
        s.filter(|c: char| !is_white_space(c)) == s,
    decreases s.len(),
{
    reveal(Seq::filter);
    if s.len() > 0 {
        assert forall|i: int| 0 <= i < s.drop_last().len() implies !is_white_space(
            #[trigger] s.drop_last()[i],
        ) by {
            assert(s.drop_last()[i] == s[i]);
        }
        lemma_filter_keeps_all(s.drop_last());
        assert(s.drop_last().push(s.last()) =~= s);
    }
}

proof fn lemma_implicit_mul_fixed(s: Seq<char>)
    requires
        no_pending_mul(s),
    ensures
        with_implicit_mul(s) == s,
    decreases s.len(),
{
    if s.len() > 1 {
        let init = s.drop_last();
        assert forall|i: int| 0 <= i < init.len() - 1 implies !#[trigger] needs_mul(
            init[i],
            init[i + 1],
        ) by {
            assert(init[i] == s[i] && init[i + 1] == s[i + 1]);
            assert(!needs_mul(s[i], s[i + 1]));
        }
        lemma_implicit_mul_fixed(init);
        assert(!needs_mul(s[s.len() - 2], s[s.len() - 1]));
        assert(init + Seq::<char>::empty() + seq![s[s.len() - 1]] =~= s);
    }
}

proof fn lemma_implicit_mul_shape(s: Seq<char>)
    requires
        no_white_space(s),
    ensures
        no_white_space(with_implicit_mul(s)),
        no_pending_mul(with_implicit_mul(s)),
        s.len() > 0 ==> with_implicit_mul(s).len() > 0 && with_implicit_mul(s).last() == s.last(),
    decreases s.len(),
{
    if s.len() > 1 {
        let init = s.drop_last();
        assert forall|i: int| 0 <= i < init.len() implies !is_white_space(#[trigger] init[i]) by {
            assert(init[i] == s[i]);
        }
        lemma_implicit_mul_shape(init);
        let a = with_implicit_mul(init);
        let last = s[s.len() - 1];
        let star = if needs_mul(s[s.len() - 2], last) {
            seq!['*']
        } else {
            Seq::<char>::empty()
        };
        let o = with_implicit_mul(s);
        assert(o == a + star + seq![last]);
        assert(a.last() == s[s.len() - 2]);
        assert(!is_white_space(last));
        assert forall|i: int| 0 <= i < o.len() implies !is_white_space(#[trigger] o[i]) by {
            if i < a.len() {
                assert(o[i] == a[i]);
            }
        }
        assert forall|i: int| 0 <= i < o.len() - 1 implies !#[trigger] needs_mul(o[i], o[i + 1]) by {
            if i + 1 < a.len() {
                assert(o[i] == a[i] && o[i + 1] == a[i + 1]);
            } else if i + 1 == a.len() {
                assert(o[i] == a.last());
            }
        }
    }
}

/// Writing out implicit products is settled after one pass: applying
/// `insert_implicit_mul` to its own output changes nothing.
pub proof fn lemma_implicit_mul_idempotent(s: Seq<char>)
    ensures
        implicit_mul_spec(implicit_mul_spec(s)) == implicit_mul_spec(s),
{
    let f = |c: char| !is_white_space(c);
    let w = s.filter(f);
    assert forall|i: int| 0 <= i < w.len() implies !is_white_space(#[trigger] w[i]) by {
        s.lemma_filter_pred(f, i);
    }
    lemma_implicit_mul_shape(w);
    let o = with_implicit_mul(w);
    lemma_filter_keeps_all(o);
    lemma_implicit_mul_fixed(o);
}

/// How many `*` go in among the first `i + 1` characters of `w`: one for each
/// adjacent pair `w[j - 1], w[j]` with `1 <= j <= i` that `needs_mul`.
pub open spec fn inserted_before(w: Seq<char>, i: int) -> int
    decreases i,
{
    if i <= 0 {
        0
    } else {
        inserted_before(w, i - 1) + if needs_mul(w[i - 1], w[i]) {
            1int
        } else {
            0int
        }
    }
}

proof fn lemma_inserted_before_prefix(w: Seq<char>, i: int)
    requires
        0 <= i < w.len() - 1,
    ensures
        inserted_before(w.drop_last(), i) == inserted_before(w, i),
    decreases i,
{
    if i > 0 {
        lemma_inserted_before_prefix(w, i - 1);
        assert(w.drop_last()[i - 1] == w[i - 1] && w.drop_last()[i] == w[i]);
    }
}

proof fn lemma_inserted_before_nonneg(w: Seq<char>, i: int)
    ensures
        0 <= inserted_before(w, i),
    decreases i,
{
    if i > 0 {
        lemma_inserted_before_nonneg(w, i - 1);
    }
}

/// `with_implicit_mul(w)` is `w` with a `*` put in between each adjacent
/// pair that `needs_mul`, and nothing else: `w[i]` sits at index
/// `i + inserted_before(w, i)`, the gap before it holds a `*` exactly when the
/// pair ending at `w[i]` needs one, and there is no other character.
pub open spec fn aligned_with_stars(w: Seq<char>, o: Seq<char>) -> bool {
    &&& w.len() == 0 ==> o.len() == 0
    &&& w.len() > 0 ==> o.len() == w.len() + inserted_before(w, w.len() - 1)
    &&& forall|i: int| 0 <= i < w.len() ==> #[trigger] o[i + inserted_before(w, i)] == w[i]
    &&& forall|i: int|
        1 <= i < w.len() && #[trigger] needs_mul(w[i - 1], w[i]) ==> o[i + inserted_before(w, i)
            - 1] == '*'
}

proof fn lemma_with_implicit_mul_aligned(w: Seq<char>)
    ensures
        aligned_with_stars(w, with_implicit_mul(w)),
    decreases w.len(),
{
    let o = with_implicit_mul(w);
    let n = w.len() as int;
    if n <= 1 {
        if n == 1 {
            assert(inserted_before(w, 0) == 0);
        }
    } else {
        let init = w.drop_last();
        lemma_with_implicit_mul_aligned(init);
        let a = with_implicit_mul(init);
        let last = w[n - 1];
        let star = if needs_mul(w[n - 2], last) {
            seq!['*']
        } else {
            Seq::<char>::empty()
        };
        assert(o == a + star + seq![last]);
        lemma_inserted_before_prefix(w, n - 2);
        assert(a.len() == n - 1 + inserted_before(w, n - 2));
        assert forall|i: int| 0 <= i < n implies #[trigger] o[i + inserted_before(w, i)] == w[i] by {
            if i < n - 1 {
                lemma_inserted_before_prefix(w, i);
                lemma_inserted_before_nonneg(w, i);
                lemma_inserted_before_mono(w, i, n - 2);
                assert(init[i] == w[i]);
                assert(a[i + inserted_before(init, i)] == init[i]);
            }
        }
        assert forall|i: int| 1 <= i < n && #[trigger] needs_mul(w[i - 1], w[i]) implies o[i
            + inserted_before(w, i) - 1] == '*' by {
            if i < n - 1 {
                lemma_inserted_before_prefix(w, i);
                lemma_inserted_before_mono(w, i, n - 2);
                assert(init[i - 1] == w[i - 1] && init[i] == w[i]);
                assert(a[i + inserted_before(init, i) - 1] == '*');
                lemma_inserted_before_nonneg(w, i);
            }
        }
    }
}

proof fn lemma_inserted_before_mono(w: Seq<char>, i: int, j: int)
    requires
        i <= j,
    ensures
        inserted_before(w, i) + (if i >= 0 { i } else { 0 }) <= inserted_before(w, j) + (if j
            >= 0 {
            j
        } else {
            0
        }),
        inserted_before(w, i) <= inserted_before(w, j),
    decreases j - i,
{
    if i < j {
        lemma_inserted_before_mono(w, i, j - 1);
    }
}

/// `insert_implicit_mul` adds nothing but `*` characters: deleting the stars
/// it put in between adjacent pairs that `needs_mul` gives back the input
/// with its white space removed, unchanged and in order (see
/// `aligned_with_stars`).
pub proof fn lemma_implicit_mul_only_adds_stars(s: Seq<char>)
    ensures
        aligned_with_stars(s.filter(|c: char| !is_white_space(c)), implicit_mul_spec(s)),
{
    lemma_with_implicit_mul_aligned(s.filter(|c: char| !is_white_space(c)));
}

/// Among ASCII characters, white space is the blank and the controls from
/// tab to carriage return; nothing else is dropped from an expression.
pub proof fn lemma_ascii_white_space(c: char)
    requires
        c < '\u{80}',
    ensures
        is_white_space(c) <==> (c == ' ' || ('\t' <= c && c <= '\r')),
{
}

/// On two printable ASCII characters other than the blank, the rewriting is
/// exactly the product rule: a `*` goes between a digit and a letter or `(`
/// (`2t` gives `2*t`, `0x` gives `0*x`), between a letter or `)` and a digit
/// (`t2` gives `t*2`), and between `)` and a letter or `(` (`)(` gives
/// `)*(`); every other pair (`ab`, `2.`, `t(`) is left as it is.
pub proof fn lemma_implicit_mul_pair(a: char, b: char)
    requires
        '!' <= a && a <= '~',
        '!' <= b && b <= '~',
    ensures
        implicit_mul_spec(seq![a, b]) == if ('0' <= a && a <= '9' && (('a' <= b && b <= 'z') || (
        'A' <= b && b <= 'Z') || b == '(')) || ((('a' <= a && a <= 'z') || ('A' <= a && a <= 'Z')
            || a == ')') && '0' <= b && b <= '9') || (a == ')' && (('a' <= b && b <= 'z') || ('A'
            <= b && b <= 'Z') || b == '(')) {
            seq![a, '*', b]
        } else {
            seq![a, b]
        },
{
    let s = seq![a, b];
    assert forall|i: int| 0 <= i < s.len() implies !is_white_space(#[trigger] s[i]) by {}
    lemma_filter_keeps_all(s);
    assert(s.drop_last() =~= seq![a]);
    assert(with_implicit_mul(seq![a]) == seq![a]);
    if needs_mul(a, b) {
        assert(with_implicit_mul(s) =~= seq![a, '*', b]);
    } else {
        assert(with_implicit_mul(s) =~= seq![a, b]);
    }
}

/// Wherever a digit is followed by a letter or `(` in an expression without
/// white space, the rewritten expression has a `*` between the two.
pub proof fn lemma_digit_then_letter_gets_star(s: Seq<char>, i: int)
    requires
        no_white_space(s),
        0 <= i && i + 1 < s.len(),
        '0' <= s[i] && s[i] <= '9',
        ('a' <= s[i + 1] && s[i + 1] <= 'z') || ('A' <= s[i + 1] && s[i + 1] <= 'Z') || s[i + 1]
            == '(',
    ensures
        exists|p: int|
            0 <= p && p + 3 <= implicit_mul_spec(s).len() && #[trigger] implicit_mul_spec(s).subrange(
                p,
                p + 3,
            ) == seq![s[i], '*', s[i + 1]],
{
    lemma_filter_keeps_all(s);
    let o = implicit_mul_spec(s);
    lemma_with_implicit_mul_aligned(s);
    lemma_inserted_before_nonneg(s, i);
    lemma_inserted_before_mono(s, i + 1, s.len() - 1);
    let p = i + inserted_before(s, i);
    assert(needs_mul(s[i], s[i + 1]));
    assert(inserted_before(s, i + 1) == inserted_before(s, i) + 1);
    assert(o[p] == s[i]);
    assert(o[(i + 1) + inserted_before(s, i + 1)] == s[i + 1]);
    assert(o[(i + 1) + inserted_before(s, i + 1) - 1] == '*');
    assert(o.subrange(p, p + 3) =~= seq![s[i], '*', s[i + 1]]);
}

/// `s` with every trailing occurrence of `c` removed.
pub open spec fn trim_end_char(s: Seq<char>, c: char) -> Seq<char>
    decreases s.len(),
{
    if s.len() > 0 && s.last() == c {
        trim_end_char(s.drop_last(), c)
    } else {
        s
    }
}

/// A decimal rendering such as `2.500000` without its redundant tail:
/// trailing zeros go first, then trailing dots (`2.500000` gives `2.5`,
/// `4.000000` gives `4`).
pub open spec fn trim_decimal_spec(s: Seq<char>) -> Seq<char> {
    trim_end_char(trim_end_char(s, '0'), '.')
}

/// The characters `cs[lo..hi]`.
pub fn sub_chars(cs: &Vec<char>, lo: usize, hi: usize) -> (r: Vec<char>)
    requires
        lo <= hi <= cs@.len(),
    ensures
        r@ == cs@.subrange(lo as int, hi as int),
{
    let mut r: Vec<char> = Vec::new();
    let mut i = lo;
    while i < hi
        invariant
            lo <= i <= hi <= cs@.len(),
            r@ == cs@.subrange(lo as int, i as int),
        decreases hi - i,
    {
        r.push(cs[i]);
        i = i + 1;
        assert(r@ =~= cs@.subrange(lo as int, i as int));
    }
    r
}

/// The length of `cs` once every trailing `c` is gone.
fn trimmed_len(cs: &Vec<char>, end: usize, c: char) -> (r: usize)
    requires
        end <= cs@.len(),
    ensures
        r <= end,
        cs@.subrange(0, r as int) == trim_end_char(cs@.subrange(0, end as int), c),
{
    let mut e = end;
    while e > 0 && cs[e - 1] == c
        invariant
            e <= end <= cs@.len(),
            trim_end_char(cs@.subrange(0, e as int), c) == trim_end_char(
                cs@.subrange(0, end as int),
                c,
            ),
        decreases e,
    {
        assert(cs@.subrange(0, e as int).drop_last() =~= cs@.subrange(0, e - 1));
        e = e - 1;
    }
    e
}

/// Removes trailing zeros and then trailing dots, the way a fixed-point
/// rendering of a number is shortened for display (`0.250000` becomes
/// `0.25`, `8.000000` becomes `8`).
pub fn trim_decimal(s: &str) -> (r: String)
    ensures
        r@ == trim_decimal_spec(s@),
{
    let cs = chars_of(s);
    let e1 = trimmed_len(&cs, cs.len(), '0');
    assert(cs@.subrange(0, cs@.len() as int) =~= cs@);
    let e2 = trimmed_len(&cs, e1, '.');
    let out = sub_chars(&cs, 0, e2);
    string_from_chars(&out)
}

/// The decimal digit for `d < 10`.
pub open spec fn digit_char(d: nat) -> char {
    if d == 0 {
        '0'
    } else if d == 1 {
        '1'
    } else if d == 2 {
        '2'
    } else if d == 3 {
        '3'
    } else if d == 4 {
        '4'
    } else if d == 5 {
        '5'
    } else if d == 6 {
        '6'
    } else if d == 7 {
        '7'
    } else if d == 8 {
        '8'
    } else {
        '9'
    }
}

/// The usual base-ten rendering of `n`, without leading zeros.
pub open spec fn decimal_spec(n: nat) -> Seq<char>
    decreases n,
{
    if n < 10 {
        seq![digit_char(n)]
    } else {
        decimal_spec(n / 10).push(digit_char(n % 10))
    }
}

fn digit_exec(d: usize) -> (c: char)
    requires
        d < 10,
    ensures
        c == digit_char(d as nat),
{
    if d == 0 {
        '0'
    } else if d == 1 {
        '1'
    } else if d == 2 {
        '2'
    } else if d == 3 {
        '3'
    } else if d == 4 {
        '4'
    } else if d == 5 {
        '5'
    } else if d == 6 {
        '6'
    } else if d == 7 {
        '7'
    } else if d == 8 {
        '8'
    } else {
        '9'
    }
}

fn push_decimal(n: usize, out: &mut Vec<char>)
    ensures
        final(out)@ == old(out)@ + decimal_spec(n as nat),
    decreases n,
{
    if n >= 10 {
        push_decimal(n / 10, out);
    }
    out.push(digit_exec(n % 10));
    assert(final(out)@ =~= old(out)@ + decimal_spec(n as nat));
}

/// The number that a string of decimal digits reads as, most significant
/// digit first (the empty string reads as zero).
pub open spec fn digits_value(s: Seq<char>) -> int
    decreases s.len(),
{
    if s.len() == 0 {
        0
    } else {
        digits_value(s.drop_last()) * 10 + (s.last() as int - '0' as int)
    }
}

proof fn lemma_digit_char_code(d: nat)
    requires
        d < 10,
    ensures
        digit_char(d) as int == '0' as int + d,
        '0' <= digit_char(d) && digit_char(d) <= '9',
{
}

/// `decimal_spec(n)` is a non-empty string of decimal digits that reads back
/// as `n`, and it starts with `0` only for `n == 0` (no leading zeros).
pub proof fn lemma_decimal_reads_back(n: nat)
    ensures
        decimal_spec(n).len() > 0,
        forall|j: int|
            0 <= j < decimal_spec(n).len() ==> '0' <= #[trigger] decimal_spec(n)[j] && decimal_spec(
                n,
            )[j] <= '9',
        digits_value(decimal_spec(n)) == n,
        decimal_spec(n)[0] == '0' ==> n == 0,
    decreases n,
{
    if n < 10 {
        lemma_digit_char_code(n);
        let d = decimal_spec(n);
        assert(d.drop_last() =~= Seq::<char>::empty());
        assert(digits_value(d.drop_last()) == 0);
    } else {
        let q = n / 10;
        let r = n % 10;
        lemma_decimal_reads_back(q);
        lemma_digit_char_code(r);
        let p = decimal_spec(q);
        let d = decimal_spec(n);
        assert(d == p.push(digit_char(r)));
        assert(d.drop_last() =~= p);
        assert(n == q * 10 + r);
        assert(digits_value(d) == digits_value(p) * 10 + (digit_char(r) as int - '0' as int));
        assert forall|j: int| 0 <= j < d.len() implies '0' <= #[trigger] d[j] && d[j] <= '9' by {
            if j < p.len() {
                assert(d[j] == p[j]);
            }
        }
        assert(d[0] == p[0]);
    }
}

/// Different numbers have different decimal renderings.
pub proof fn lemma_decimal_injective(a: nat, b: nat)
    requires
        a != b,
    ensures
        decimal_spec(a) != decimal_spec(b),
{
    lemma_decimal_reads_back(a);
    lemma_decimal_reads_back(b);
}

/// The base-ten rendering of `n` (`0`, `7`, `42`, `1000`).
pub fn decimal(n: usize) -> (r: String)
    ensures
        r@ == decimal_spec(n as nat),
{
    let mut cs: Vec<char> = Vec::new();
    push_decimal(n, &mut cs);
    assert(cs@ =~= decimal_spec(n as nat));
    string_from_chars(&cs)
}

/// `s` with every trailing repetition of the non-empty `pat` removed.
pub open spec fn trim_end_seq(s: Seq<char>, pat: Seq<char>) -> Seq<char>
    decreases s.len(),
{
    if pat.len() > 0 && s.len() >= pat.len() && s.subrange(s.len() - pat.len(), s.len() as int)
        == pat {
        trim_end_seq(s.subrange(0, s.len() - pat.len()), pat)
    } else {
        s
    }
}

fn ends_with_at(cs: &Vec<char>, end: usize, pat: &Vec<char>) -> (r: bool)
    requires
        end <= cs@.len(),
    ensures
        r == (pat@.len() <= end && cs@.subrange(end - pat@.len(), end as int) == pat@),
{
    if pat.len() > end {
        return false;
    }
    let start = end - pat.len();
    let mut i: usize = 0;
    while i < pat.len()
        invariant
            start + pat@.len() == end <= cs@.len(),
            i <= pat@.len(),
            forall|j: int| 0 <= j < i ==> cs@[start + j] == pat@[j],
        decreases pat.len() - i,
    {
        if cs[start + i] != pat[i] {
            assert(cs@.subrange(start as int, end as int)[i as int] != pat@[i as int]);
            return false;
        }
        i = i + 1;
    }
    assert(cs@.subrange(start as int, end as int) =~= pat@);
    true
}

/// `s` with every trailing repetition of `pat` removed (an empty `pat`
/// removes nothing).
pub fn trim_end_str(s: &str, pat: &str) -> (r: String)
    ensures
        r@ == trim_end_seq(s@, pat@),
{
    let cs = chars_of(s);
    let ps = chars_of(pat);
    let mut e = cs.len();
    assert(cs@.subrange(0, e as int) =~= cs@);
    if ps.len() > 0 {
        while ends_with_at(&cs, e, &ps)
            invariant
                e <= cs@.len(),
                ps@.len() > 0,
                ps@ == pat@,
                trim_end_seq(cs@.subrange(0, e as int), ps@) == trim_end_seq(cs@, ps@),
            decreases e,
        {
            let ghost t = cs@.subrange(0, e as int);
            assert(t.subrange(t.len() - ps@.len(), t.len() as int) =~= cs@.subrange(
                e - ps@.len(),
                e as int,
            ));
            assert(t.subrange(0, t.len() - ps@.len()) =~= cs@.subrange(0, e - ps@.len()));
            e = e - ps.len();
        }
        proof {
            let t = cs@.subrange(0, e as int);
            if ps@.len() <= t.len() {
                assert(t.subrange(t.len() - ps@.len(), t.len() as int) =~= cs@.subrange(
                    e - ps@.len(),
                    e as int,
                ));
            }
        }
    }
    let out = sub_chars(&cs, 0, e);
    string_from_chars(&out)
}

} // verus!
