//! Text helpers: decimal rendering, character search and name ordering.

use vstd::prelude::*;
use vstd::string::StrSliceExecFns;
use vstd::string::StringExecFns;

verus! {

/// The character of a single decimal digit.
pub open spec fn digit_char(d: nat) -> char {
    if d == 0 {
        '0'
    } else if d == 1 {
        '1'
    } else if d == 2 {
        '2'
    } else if d == 3 {
        '3'
    } else if d == 4 {
        '4'
    } else if d == 5 {
        '5'
    } else if d == 6 {
        '6'
    } else if d == 7 {
        '7'
    } else if d == 8 {
        '8'
    } else {
        '9'
    }
}

/// The decimal rendering of a natural number, most significant digit first,
/// without leading zeros.
pub open spec fn decimal(n: nat) -> Seq<char>
    decreases n,
{
    if n < 10 {
        seq![digit_char(n)]
    } else {
        decimal(n / 10).push(digit_char(n % 10))
    }
}

/// The one-character text of a decimal digit.
fn digit_text(d: u64) -> (text: &'static str)
    requires
        d < 10,
    ensures
        text@ == seq![digit_char(d as nat)],
{
    proof {
        reveal_strlit("0");
        reveal_strlit("1");
        reveal_strlit("2");
        reveal_strlit("3");
        reveal_strlit("4");
        reveal_strlit("5");
        reveal_strlit("6");
        reveal_strlit("7");
        reveal_strlit("8");
        reveal_strlit("9");
    }
    if d == 0 {
        "0"
    } else if d == 1 {
        "1"
    } else if d == 2 {
        "2"
    } else if d == 3 {
        "3"
    } else if d == 4 {
        "4"
    } else if d == 5 {
        "5"
    } else if d == 6 {
        "6"
    } else if d == 7 {
        "7"
    } else if d == 8 {
        "8"
    } else {
        "9"
    }
}

/// Renders an unsigned integer in decimal.
pub fn decimal_text(n: u64) -> (text: String)
    ensures
        text@ == decimal(n as nat),
    decreases n,
{
    if n < 10 {
        digit_text(n).to_owned()
    } else {
        let mut text = decimal_text(n / 10);
        text.append(digit_text(n % 10));
        assert(text@ =~= decimal(n as nat));
        text
    }
}

/// The part of `s` before the first `c`; all of `s` when `c` is absent.
pub open spec fn before_first(s: Seq<char>, c: char) -> Seq<char>
    decreases s.len(),
{
    if s.len() == 0 || s[0] == c {
        Seq::empty()
    } else {
        seq![s[0]] + before_first(s.drop_first(), c)
    }
}

/// [`before_first`] is the prefix that ends at the first `c`.
proof fn lemma_before_first(s: Seq<char>, c: char, i: int)
    requires
        0 <= i <= s.len(),
        forall|j: int| 0 <= j < i ==> s[j] != c,
        i < s.len() ==> s[i] == c,
    ensures
        before_first(s, c) == s.subrange(0, i),
    decreases s.len(),
{
    if i == 0 {
        assert(s.subrange(0, 0) =~= Seq::<char>::empty());
    } else {
        assert forall|j: int| 0 <= j < i - 1 implies s.drop_first()[j] != c by {
            assert(s.drop_first()[j] == s[j + 1]);
        }
        lemma_before_first(s.drop_first(), c, i - 1);
        assert(seq![s[0]] + s.drop_first().subrange(0, i - 1) =~= s.subrange(0, i));
    }
}

/// The characters of a text, in order.
pub fn chars_of(s: &str) -> (chars: Vec<char>)
    ensures
        chars@ == s@,
{
    let mut chars: Vec<char> = Vec::new();
    for c in it: s.chars()
        invariant
            it.seq() == s@,
            chars@ == s@.take(it.index()),
    {
        chars.push(c);
        assert(s@.take(it.index() + 1) =~= s@.take(it.index()).push(s@[it.index()]));
    }
    assert(s@.take(s@.len() as int) =~= s@);
    chars
}

/// The part of a text before the first `c`; all of it when `c` is absent.
pub fn text_before_first(s: &str, c: char) -> (head: &str)
    ensures
        head@ == before_first(s@, c),
{
    let chars = chars_of(s);
    let mut i: usize = 0;
    while i < chars.len() && chars[i] != c
        invariant
            chars@ == s@,
            i <= chars.len(),
            forall|j: int| 0 <= j < i ==> s@[j] != c,
        decreases chars.len() - i,
    {
        i += 1;
    }
    proof {
        lemma_before_first(s@, c, i as int);
    }
    s.substring_char(0, i)
}

/// Whether `c` occurs in a text.
pub fn text_contains(s: &str, c: char) -> (r: bool)
    ensures
        r == s@.contains(c),
{
    let chars = chars_of(s);
    let mut i: usize = 0;
    while i < chars.len()
        invariant
            chars@ == s@,
            i <= chars.len(),
            forall|j: int| 0 <= j < i ==> s@[j] != c,
        decreases chars.len() - i,
    {
        if chars[i] == c {
            assert(s@[i as int] == c);
            return true;
        }
        i += 1;
    }
    false
}

/// Whether `a` comes before `b`: at the first place they differ `a` has the
/// smaller character, or `a` is a proper prefix of `b`.
pub open spec fn lex_less(a: Seq<char>, b: Seq<char>) -> bool
    decreases a.len(),
{
    if b.len() == 0 {
        false
    } else if a.len() == 0 {
        true
    } else if a[0] != b[0] {
        a[0] < b[0]
    } else {
        lex_less(a.drop_first(), b.drop_first())
    }
}

/// Equal beginnings do not decide the order.
proof fn lemma_lex_skip(a: Seq<char>, b: Seq<char>, i: int)
    requires
        0 <= i <= a.len(),
        i <= b.len(),
        forall|j: int| 0 <= j < i ==> a[j] == b[j],
    ensures
        lex_less(a, b) == lex_less(a.subrange(i, a.len() as int), b.subrange(i, b.len() as int)),
    decreases i,
{
    if i == 0 {
        assert(a.subrange(0, a.len() as int) =~= a);
        assert(b.subrange(0, b.len() as int) =~= b);
    } else {
        lemma_lex_skip(a, b, i - 1);
        let x = a.subrange(i - 1, a.len() as int);
        let y = b.subrange(i - 1, b.len() as int);
        assert(x[0] == a[i - 1] && y[0] == b[i - 1]);
        assert(x.drop_first() =~= a.subrange(i, a.len() as int));
        assert(y.drop_first() =~= b.subrange(i, b.len() as int));
    }
}

/// The order of names is strict, total and transitive.
pub proof fn law_lex_order(a: Seq<char>, b: Seq<char>, c: Seq<char>)
    ensures
        !lex_less(a, a),
        a != b ==> lex_less(a, b) || lex_less(b, a),
        lex_less(a, b) ==> !lex_less(b, a),
        lex_less(a, b) && lex_less(b, c) ==> lex_less(a, c),
    decreases a.len(),
{
    if a.len() > 0 {
        if b.len() > 0 {
            let (x, y) = (a.drop_first(), b.drop_first());
            let z = if c.len() > 0 {
                c.drop_first()
            } else {
                c
            };
            law_lex_order(x, y, z);
            if a[0] == b[0] && x == y {
                assert(a =~= seq![a[0]] + x);
                assert(b =~= seq![b[0]] + y);
            }
        } else {
            law_lex_order(a.drop_first(), b, c);
        }
    } else if b.len() == 0 {
        assert(a =~= b);
    }
}

/// Whether one text comes before another.
pub fn text_before(a: &str, b: &str) -> (r: bool)
    ensures
        r == lex_less(a@, b@),
{
    let x = chars_of(a);
    let y = chars_of(b);
    let mut i: usize = 0;
    while i < x.len() && i < y.len() && x[i] == y[i]
        invariant
            x@ == a@,
            y@ == b@,
            i <= x.len(),
            i <= y.len(),
            forall|j: int| 0 <= j < i ==> x@[j] == y@[j],
        decreases x.len() - i,
    {
        i += 1;
    }
    proof {
        lemma_lex_skip(a@, b@, i as int);
    }
    if i >= y.len() {
        false
    } else if i >= x.len() {
        true
    } else {
        x[i] < y[i]
    }
}

/// Whether a text begins with another, and what follows if it does.
pub fn text_after<'a>(s: &'a str, prefix: &str) -> (rest: Option<&'a str>)
    ensures
        match rest {
            Some(rest) => s@ == prefix@ + rest@,
            None => forall|rest: Seq<char>| s@ != #[trigger] (prefix@ + rest),
        },
{
    let x = chars_of(s);
    let y = chars_of(prefix);
    if y.len() > x.len() {
        return None;
    }
    let mut i: usize = 0;
    while i < y.len()
        invariant
            x@ == s@,
            y@ == prefix@,
            i <= y.len() <= x.len(),
            forall|j: int| 0 <= j < i ==> x@[j] == y@[j],
        decreases y.len() - i,
    {
        if x[i] != y[i] {
            assert forall|rest: Seq<char>| s@ != #[trigger] (prefix@ + rest) by {
                assert((prefix@ + rest)[i as int] == prefix@[i as int]);
            }
            return None;
        }
        i += 1;
    }
    assert(s@ =~= prefix@ + s@.subrange(y.len() as int, x.len() as int));
    Some(s.substring_char(y.len(), x.len()))
}

/// Concatenates two texts.
pub fn join(a: &str, b: &str) -> (r: String)
    ensures
        r@ == a@ + b@,
{
    a.to_owned().concat(b)
}

/// The number that decimal digits stand for.
pub open spec fn decimal_value(digits: Seq<char>) -> int
    decreases digits.len(),
{
    if digits.len() == 0 {
        0
    } else {
        decimal_value(digits.drop_last()) * 10 + (digits.last() as int - '0' as int)
    }
}

/// A number's decimal text stands for the number, has only digits and no leading
/// zero; so distinct numbers have distinct texts.
pub proof fn law_decimal_reads_back(n: nat)
    ensures
        decimal_value(decimal(n)) == n,
        decimal(n).len() > 0,
        forall|i: int| 0 <= i < decimal(n).len() ==> '0' <= #[trigger] decimal(n)[i] <= '9',
        n > 0 ==> decimal(n)[0] != '0',
    decreases n,
{
    if n < 10 {
        assert(decimal(n).drop_last() =~= Seq::empty());
        assert(decimal_value(decimal(n).drop_last()) == 0);
    } else {
        law_decimal_reads_back(n / 10);
        assert(decimal(n).drop_last() =~= decimal(n / 10));
        assert(decimal(n).last() == digit_char(n % 10));
    }
}

/// What stands before the first occurrence of a character is the longest
/// beginning without it.
pub proof fn law_before_first(s: Seq<char>, c: char)
    ensures
        before_first(s, c).len() <= s.len(),
        s.take(before_first(s, c).len() as int) == before_first(s, c),
        !before_first(s, c).contains(c),
        before_first(s, c).len() < s.len() ==> s[before_first(s, c).len() as int] == c,
    decreases s.len(),
{
    if s.len() > 0 && s[0] != c {
        let rest = s.drop_first();
        law_before_first(rest, c);
        let head = before_first(s, c);
        let tail = before_first(rest, c);
        assert(head =~= seq![s[0]] + tail);
        assert forall|i: int| 0 <= i < head.len() implies head[i] == s[i] && head[i] != c by {
            if i > 0 {
                assert(head[i] == tail[i - 1]);
                assert(rest.take(tail.len() as int)[i - 1] == rest[i - 1]);
                assert(tail.contains(tail[i - 1]));
            }
        }
        assert(s.take(head.len() as int) =~= head);
        if head.len() < s.len() {
            assert(rest[tail.len() as int] == s[head.len() as int]);
        }
    } else {
        assert(s.take(0) =~= before_first(s, c));
    }
}

/// Texts are in order as in a dictionary: a proper beginning comes first, and
/// otherwise the first characters that differ decide.
pub proof fn law_dictionary_order(a: Seq<char>, b: Seq<char>, k: int)
    requires
        0 <= k <= a.len(),
        k <= b.len(),
        forall|i: int| 0 <= i < k ==> #[trigger] a[i] == b[i],
    ensures
        k == a.len() ==> (lex_less(a, b) <==> k < b.len()),
        k == b.len() ==> !lex_less(a, b),
        k < a.len() && k < b.len() && a[k] != b[k] ==> (lex_less(a, b) <==> a[k] < b[k]),
    decreases k,
{
    if k > 0 {
        assert(a[0] == b[0]);
        let (x, y) = (a.drop_first(), b.drop_first());
        assert forall|i: int| 0 <= i < k - 1 implies #[trigger] x[i] == y[i] by {
            assert(a[i + 1] == b[i + 1]);
        }
        law_dictionary_order(x, y, k - 1);
    }
}

} // verus!
