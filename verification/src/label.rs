//! Label derivation: a label is the first 20 characters of a transcript's
//! text, trimmed of surrounding white space; when the transcript is absent or
//! that text comes out empty, a counted `empty_<n>` placeholder steps in.

use vstd::prelude::*;

verus! {

/// The characters that trimming removes: Unicode white space.
pub open spec fn is_space_char(c: char) -> bool {
    c == ' ' || c == '\t' || c == '\n' || c == '\r' || c == '\u{b}' || c == '\u{c}'
        || c == '\u{85}' || c == '\u{a0}' || c == '\u{1680}' || c == '\u{2000}'
        || c == '\u{2001}' || c == '\u{2002}' || c == '\u{2003}' || c == '\u{2004}'
        || c == '\u{2005}' || c == '\u{2006}' || c == '\u{2007}' || c == '\u{2008}'
        || c == '\u{2009}' || c == '\u{200a}' || c == '\u{2028}' || c == '\u{2029}'
        || c == '\u{202f}' || c == '\u{205f}' || c == '\u{3000}'
}

pub fn is_space(c: char) -> (r: bool)
    ensures
        r == is_space_char(c),
{
    c == ' ' || c == '\t' || c == '\n' || c == '\r' || c == '\u{b}' || c == '\u{c}'
        || c == '\u{85}' || c == '\u{a0}' || c == '\u{1680}' || c == '\u{2000}'
        || c == '\u{2001}' || c == '\u{2002}' || c == '\u{2003}' || c == '\u{2004}'
        || c == '\u{2005}' || c == '\u{2006}' || c == '\u{2007}' || c == '\u{2008}'
        || c == '\u{2009}' || c == '\u{200a}' || c == '\u{2028}' || c == '\u{2029}'
        || c == '\u{202f}' || c == '\u{205f}' || c == '\u{3000}'
}

/// `s` with leading and trailing white space removed.
pub open spec fn trim_spec(s: Seq<char>) -> Seq<char>
    decreases s.len(),
{
    if s.len() == 0 {
        s
    } else if is_space_char(s.first()) {
        trim_spec(s.drop_first())
    } else if is_space_char(s.last()) {
        trim_spec(s.drop_last())
    } else {
        s
    }
}

pub proof fn lemma_trim_wf(s: Seq<char>)
    ensures
        trim_spec(s).len() <= s.len(),
        trim_spec(s).len() > 0 ==> !is_space_char(trim_spec(s).first()),
        trim_spec(s).len() > 0 ==> !is_space_char(trim_spec(s).last()),
    decreases s.len(),
{
    if s.len() == 0 {
    } else if is_space_char(s.first()) {
        lemma_trim_wf(s.drop_first());
    } else if is_space_char(s.last()) {
        lemma_trim_wf(s.drop_last());
    }
}

proof fn lemma_trim_all_space(s: Seq<char>)
    requires
        forall|j: int| 0 <= j < s.len() ==> is_space_char(s[j]),
    ensures
        trim_spec(s).len() == 0,
    decreases s.len(),
{
    if s.len() > 0 {
        assert(is_space_char(s.first()));
        assert forall|j: int| 0 <= j < s.drop_first().len() implies is_space_char(
            s.drop_first()[j],
        ) by {
            assert(s.drop_first()[j] == s[j + 1]);
        }
        lemma_trim_all_space(s.drop_first());
    }
}

proof fn lemma_trim_subrange(s: Seq<char>, a: int, b: int)
    requires
        0 <= a <= b < s.len(),
        forall|j: int| 0 <= j < a ==> is_space_char(s[j]),
        forall|j: int| b < j < s.len() ==> is_space_char(s[j]),
        !is_space_char(s[a]),
        !is_space_char(s[b]),
    ensures
        trim_spec(s) == s.subrange(a, b + 1),
    decreases s.len(),
{
    assert(s.first() == s[0]);
    assert(s.last() == s[s.len() - 1]);
    if a > 0 {
        assert(is_space_char(s.first()));
        let t = s.drop_first();
        assert forall|j: int| 0 <= j < a - 1 implies is_space_char(t[j]) by {
            assert(t[j] == s[j + 1]);
        }
        assert forall|j: int| b - 1 < j < t.len() implies is_space_char(t[j]) by {
            assert(t[j] == s[j + 1]);
        }
        assert(t[a - 1] == s[a]);
        assert(t[b - 1] == s[b]);
        lemma_trim_subrange(t, a - 1, b - 1);
        assert(t.subrange(a - 1, b) =~= s.subrange(a, b + 1));
    } else if b < s.len() - 1 {
        assert(!is_space_char(s.first()));
        assert(is_space_char(s.last()));
        let t = s.drop_last();
        assert forall|j: int| b < j < t.len() implies is_space_char(t[j]) by {
            assert(t[j] == s[j]);
        }
        assert(t[a] == s[a]);
        assert(t[b] == s[b]);
        lemma_trim_subrange(t, a, b);
        assert(t.subrange(a, b + 1) =~= s.subrange(a, b + 1));
    } else {
        assert(!is_space_char(s.first()));
        assert(!is_space_char(s.last()));
        assert(s.subrange(0, s.len() as int) =~= s);
    }
}

/// At most the first 20 characters of `c`.
pub open spec fn clip20(c: Seq<char>) -> Seq<char> {
    if c.len() <= 20 {
        c
    } else {
        c.take(20)
    }
}

/// The label a present transcript text yields: its first 20 characters,
/// trimmed of surrounding white space.
pub open spec fn content_label(c: Seq<char>) -> Seq<char> {
    trim_spec(clip20(c))
}

/// Every label derived from transcript text is at most 20 characters long
/// and carries no surrounding white space.
pub proof fn lemma_content_label_wf(c: Seq<char>)
    ensures
        content_label(c).len() <= 20,
        content_label(c).len() > 0 ==> !is_space_char(content_label(c).first()),
        content_label(c).len() > 0 ==> !is_space_char(content_label(c).last()),
{
    lemma_trim_wf(clip20(c));
}

/// The character for the decimal digit `d`.
pub open spec fn digit_char(d: int) -> char {
    if d == 0 {
        '0'
    } else if d == 1 {
        '1'
    } else if d == 2 {
        '2'
    } else if d == 3 {
        '3'
    } else if d == 4 {
        '4'
    } else if d == 5 {
        '5'
    } else if d == 6 {
        '6'
    } else if d == 7 {
        '7'
    } else if d == 8 {
        '8'
    } else {
        '9'
    }
}

/// The decimal numeral of `n`, most significant digit first.
pub open spec fn dec_spec(n: nat) -> Seq<char>
    decreases n,
{
    if n < 10 {
        seq![digit_char(n as int)]
    } else {
        dec_spec((n / 10) as nat).push(digit_char((n % 10) as int))
    }
}

pub proof fn lemma_dec_len(n: nat)
    ensures
        dec_spec(n).len() >= 1,
        n < 10 ==> dec_spec(n).len() == 1,
        n >= 10 ==> dec_spec(n).len() >= 2,
    decreases n,
{
    if n >= 10 {
        lemma_dec_len((n / 10) as nat);
    }
}

proof fn lemma_digit_char_inj(d1: int, d2: int)
    requires
        0 <= d1 < 10,
        0 <= d2 < 10,
        digit_char(d1) == digit_char(d2),
    ensures
        d1 == d2,
{
}

proof fn lemma_dec_last_not_space(n: nat)
    ensures
        !is_space_char(dec_spec(n).last()),
{
    if n < 10 {
        assert(dec_spec(n).last() == digit_char(n as int));
    } else {
        assert(dec_spec(n).last() == digit_char((n % 10) as int));
    }
}

/// Distinct numbers have distinct numerals.
pub proof fn lemma_dec_injective(m: nat, n: nat)
    requires
        dec_spec(m) == dec_spec(n),
    ensures
        m == n,
    decreases m,
{
    if m < 10 && n < 10 {
        assert(dec_spec(m)[0] == digit_char(m as int));
        assert(dec_spec(n)[0] == digit_char(n as int));
        lemma_digit_char_inj(m as int, n as int);
    } else if m < 10 {
        lemma_dec_len(m);
        lemma_dec_len(n);
    } else if n < 10 {
        lemma_dec_len(m);
        lemma_dec_len(n);
    } else {
        let a = dec_spec((m / 10) as nat);
        let b = dec_spec((n / 10) as nat);
        assert(dec_spec(m).last() == digit_char((m % 10) as int));
        assert(dec_spec(n).last() == digit_char((n % 10) as int));
        lemma_digit_char_inj((m % 10) as int, (n % 10) as int);
        assert(a.push(digit_char((m % 10) as int)).drop_last() =~= a);
        assert(b.push(digit_char((n % 10) as int)).drop_last() =~= b);
        assert(a == b);
        lemma_dec_injective((m / 10) as nat, (n / 10) as nat);
        vstd::arithmetic::div_mod::lemma_fundamental_div_mod(m as int, 10);
        vstd::arithmetic::div_mod::lemma_fundamental_div_mod(n as int, 10);
    }
}

/// The placeholder prefix `empty_`, as characters.
pub open spec fn empty_prefix() -> Seq<char> {
    seq!['e', 'm', 'p', 't', 'y', '_']
}

/// The placeholder label for the `n`-th missing-or-blank transcript.
pub open spec fn placeholder_spec(n: nat) -> Seq<char> {
    empty_prefix() + dec_spec(n)
}

pub proof fn lemma_placeholder_wf(n: nat)
    ensures
        placeholder_spec(n).len() >= 7,
        !is_space_char(placeholder_spec(n).first()),
        !is_space_char(placeholder_spec(n).last()),
{
    lemma_dec_len(n);
    lemma_dec_last_not_space(n);
    assert(placeholder_spec(n).first() == 'e');
    assert(placeholder_spec(n).last() == dec_spec(n).last());
}

/// Two different placeholder counters give two different labels.
pub proof fn lemma_placeholder_injective(m: nat, n: nat)
    requires
        m != n,
    ensures
        placeholder_spec(m) != placeholder_spec(n),
{
    if placeholder_spec(m) == placeholder_spec(n) {
        assert(empty_prefix().len() == 6);
        assert(placeholder_spec(m).len() == 6 + dec_spec(m).len());
        assert(placeholder_spec(n).len() == 6 + dec_spec(n).len());
        assert(dec_spec(m).len() == dec_spec(n).len());
        assert forall|i: int| 0 <= i < dec_spec(m).len() implies dec_spec(m)[i] == dec_spec(
            n,
        )[i] by {
            assert(placeholder_spec(m)[6 + i] == dec_spec(m)[i]);
            assert(placeholder_spec(n)[6 + i] == dec_spec(n)[i]);
        }
        assert(dec_spec(m) =~= dec_spec(n));
        lemma_dec_injective(m, n);
    }
}

/// Whether transcript content yields no usable label text: absent, or blank
/// after clipping and trimming.
pub open spec fn is_blank_spec(content: Option<Seq<char>>) -> bool {
    match content {
        Option::None => true,
        Option::Some(c) => content_label(c).len() == 0,
    }
}

/// The label an entry receives: the trimmed clip of its transcript text, or
/// the `k`-th placeholder when the transcript is absent or that text is
/// empty.
pub open spec fn label_spec(content: Option<Seq<char>>, k: nat) -> Seq<char> {
    match content {
        Option::None => placeholder_spec(k),
        Option::Some(c) => if content_label(c).len() == 0 {
            placeholder_spec(k)
        } else {
            content_label(c)
        },
    }
}

/// A usable label: non-empty, with no surrounding white space.
pub open spec fn label_wf(l: Seq<char>) -> bool {
    l.len() > 0 && !is_space_char(l.first()) && !is_space_char(l.last())
}

/// Whatever the transcript, the derived label is usable.
pub proof fn lemma_label_wf(content: Option<Seq<char>>, k: nat)
    ensures
        label_wf(label_spec(content, k)),
{
    lemma_placeholder_wf(k);
    match content {
        Option::None => {
        },
        Option::Some(c) => {
            lemma_content_label_wf(c);
        },
    }
}

/// Count of the blank entries in `contents`.
pub open spec fn blank_count(contents: Seq<Option<Seq<char>>>) -> nat
    decreases contents.len(),
{
    if contents.len() == 0 {
        0
    } else {
        blank_count(contents.drop_last()) + if is_blank_spec(contents.last()) {
            1nat
        } else {
            0nat
        }
    }
}

pub proof fn lemma_blank_count_take_step(contents: Seq<Option<Seq<char>>>, i: int)
    requires
        0 <= i < contents.len(),
    ensures
        blank_count(contents.take(i + 1)) == blank_count(contents.take(i)) + if is_blank_spec(
            contents[i],
        ) {
            1nat
        } else {
            0nat
        },
{
    assert(contents.take(i + 1).drop_last() =~= contents.take(i));
    assert(contents.take(i + 1).last() == contents[i]);
}

proof fn lemma_blank_count_monotone(contents: Seq<Option<Seq<char>>>, a: int, b: int)
    requires
        0 <= a <= b <= contents.len(),
    ensures
        blank_count(contents.take(a)) <= blank_count(contents.take(b)),
    decreases b - a,
{
    if a < b {
        lemma_blank_count_take_step(contents, a);
        lemma_blank_count_monotone(contents, a + 1, b);
    }
}

/// Placeholder labels go out in strictly increasing order of first
/// occurrence: a later blank entry sees a strictly larger counter than an
/// earlier one, so no two blank entries ever receive the same label.
pub proof fn lemma_placeholder_order(contents: Seq<Option<Seq<char>>>, i: int, j: int)
    requires
        0 <= i < j < contents.len(),
        is_blank_spec(contents[i]),
        is_blank_spec(contents[j]),
    ensures
        blank_count(contents.take(j)) > blank_count(contents.take(i)),
        label_spec(contents[i], blank_count(contents.take(i))) != label_spec(
            contents[j],
            blank_count(contents.take(j)),
        ),
{
    lemma_blank_count_take_step(contents, i);
    lemma_blank_count_monotone(contents, i + 1, j);
    lemma_placeholder_injective(blank_count(contents.take(i)), blank_count(contents.take(j)));
}

/// The one-character string for the decimal digit `d`.
fn digit_str(d: usize) -> (r: &'static str)
    requires
        d < 10,
    ensures
        r@ == seq![digit_char(d as int)],
{
    if d == 0 {
        proof {
            reveal_strlit("0");
            assert("0"@ =~= seq![digit_char(0)]);
        }
        "0"
    } else if d == 1 {
        proof {
            reveal_strlit("1");
            assert("1"@ =~= seq![digit_char(1)]);
        }
        "1"
    } else if d == 2 {
        proof {
            reveal_strlit("2");
            assert("2"@ =~= seq![digit_char(2)]);
        }
        "2"
    } else if d == 3 {
        proof {
            reveal_strlit("3");
            assert("3"@ =~= seq![digit_char(3)]);
        }
        "3"
    } else if d == 4 {
        proof {
            reveal_strlit("4");
            assert("4"@ =~= seq![digit_char(4)]);
        }
        "4"
    } else if d == 5 {
        proof {
            reveal_strlit("5");
            assert("5"@ =~= seq![digit_char(5)]);
        }
        "5"
    } else if d == 6 {
        proof {
            reveal_strlit("6");
            assert("6"@ =~= seq![digit_char(6)]);
        }
        "6"
    } else if d == 7 {
        proof {
            reveal_strlit("7");
            assert("7"@ =~= seq![digit_char(7)]);
        }
        "7"
    } else if d == 8 {
        proof {
            reveal_strlit("8");
            assert("8"@ =~= seq![digit_char(8)]);
        }
        "8"
    } else {
        proof {
            reveal_strlit("9");
            assert("9"@ =~= seq![digit_char(9)]);
        }
        "9"
    }
}

/// The decimal numeral of `n`.
pub fn dec_string(n: usize) -> (r: String)
    ensures
        r@ == dec_spec(n as nat),
    decreases n,
{
    if n < 10 {
        let mut s = String::new();
        s.append(digit_str(n));
        proof {
            assert(s@ =~= dec_spec(n as nat));
        }
        s
    } else {
        let mut s = dec_string(n / 10);
        s.append(digit_str(n % 10));
        proof {
            assert(s@ =~= dec_spec(n as nat));
        }
        s
    }
}

/// The placeholder label `empty_<n>`.
pub fn placeholder(n: usize) -> (r: String)
    ensures
        r@ == placeholder_spec(n as nat),
{
    let s: String = "empty_".to_owned();
    proof {
        reveal_strlit("empty_");
        assert(s@ =~= empty_prefix());
    }
    let d = dec_string(n);
    s.concat(d.as_str())
}

/// `s` with leading and trailing white space removed.
pub fn trim(s: &str) -> (r: String)
    ensures
        r@ == trim_spec(s@),
{
    let n: usize = s.unicode_len();
    let mut a: usize = 0;
    while a < n && is_space(s.get_char(a))
        invariant
            a <= n,
            n == s@.len(),
            forall|j: int| 0 <= j < a ==> is_space_char(s@[j]),
        decreases n - a,
    {
        a = a + 1;
    }
    if a == n {
        proof {
            lemma_trim_all_space(s@);
        }
        String::new()
    } else {
        let mut b: usize = n - 1;
        while b > a && is_space(s.get_char(b))
            invariant
                a <= b < n,
                n == s@.len(),
                forall|j: int| b < j < n ==> is_space_char(s@[j]),
            decreases b,
        {
            b = b - 1;
        }
        proof {
            if b == a {
                assert(!is_space_char(s@[a as int]));
            }
            lemma_trim_subrange(s@, a as int, b as int);
        }
        s.substring_char(a, b + 1).to_owned()
    }
}

/// The first 20 characters of `s`, trimmed of surrounding white space.
pub fn clipped_trimmed(s: &str) -> (r: String)
    ensures
        r@ == content_label(s@),
{
    let n: usize = s.unicode_len();
    let m: usize = if n <= 20 {
        n
    } else {
        20
    };
    let c: &str = s.substring_char(0, m);
    proof {
        assert(c@ =~= clip20(s@));
    }
    trim(c)
}

/// Derive the label for one entry, given the transcript content (when the
/// transcript file exists) and the current placeholder counter; also reports
/// whether the placeholder case applied.
pub fn derive_label(content: &Option<String>, k: usize) -> (r: (String, bool))
    ensures
        r.1 == is_blank_spec(content.deep_view()),
        r.0@ == label_spec(content.deep_view(), k as nat),
{
    match content {
        Option::None => (placeholder(k), true),
        Option::Some(c) => {
            let t = clipped_trimmed(c.as_str());
            if t.as_str().unicode_len() == 0 {
                (placeholder(k), true)
            } else {
                (t, false)
            }
        },
    }
}

} // verus!
