//! Small operations on strings, with what each returns stated over characters.

use vstd::prelude::*;

verus! {

/// `suffix` ends `s`.
pub open spec fn ends_with_spec(s: Seq<char>, suffix: Seq<char>) -> bool {
    suffix.len() <= s.len() && s.subrange(s.len() - suffix.len(), s.len() as int) == suffix
}

/// `prefix` begins `s`.
pub open spec fn starts_with_spec(s: Seq<char>, prefix: Seq<char>) -> bool {
    prefix.len() <= s.len() && s.subrange(0, prefix.len() as int) == prefix
}

/// The decimal digits of `n`, most significant first, without leading zeros.
pub open spec fn decimal_digits(n: nat) -> Seq<char>
    decreases n,
{
    if n < 10 {
        seq![digit_char(n)]
    } else {
        decimal_digits(n / 10).push(digit_char(n % 10))
    }
}

/// The character of a single decimal digit.
pub open spec fn digit_char(d: nat) -> char {
    if d == 0 {
        '0'
    } else if d == 1 {
        '1'
    } else if d == 2 {
        '2'
    } else if d == 3 {
        '3'
    } else if d == 4 {
        '4'
    } else if d == 5 {
        '5'
    } else if d == 6 {
        '6'
    } else if d == 7 {
        '7'
    } else if d == 8 {
        '8'
    } else {
        '9'
    }
}

/// The segments of `parts` with `.` between neighbours.
pub open spec fn dotted(parts: Seq<Seq<char>>) -> Seq<char>
    decreases parts.len(),
{
    if parts.len() == 0 {
        Seq::empty()
    } else if parts.len() == 1 {
        parts[0]
    } else {
        dotted(parts.drop_last()) + seq!['.'] + parts.last()
    }
}

/// The characters of each string of `parts`.
pub open spec fn texts(parts: Seq<String>) -> Seq<Seq<char>> {
    Seq::new(parts.len(), |i: int| parts[i]@)
}

/// `str::strip_suffix`: the text before `suffix` where `s` ends with it,
/// nothing where it does not.
#[verifier::external_body]
pub(crate) fn strip_suffix(s: &str, suffix: &str) -> (r: Option<String>)
    ensures
        match r {
            Some(head) => ends_with_spec(s@, suffix@) && head@ == s@.subrange(
                0,
                s@.len() - suffix@.len(),
            ),
            None => !ends_with_spec(s@, suffix@),
        },
{
    s.strip_suffix(suffix).map(|head| head.to_string())
}

/// `str::starts_with`: whether `prefix` begins `s`.
#[verifier::external_body]
pub(crate) fn starts_with(s: &str, prefix: &str) -> (r: bool)
    ensures
        r == starts_with_spec(s@, prefix@),
{
    s.starts_with(prefix)
}

/// `str::ends_with`: whether `suffix` ends `s`.
#[verifier::external_body]
pub(crate) fn ends_with(s: &str, suffix: &str) -> (r: bool)
    ensures
        r == ends_with_spec(s@, suffix@),
{
    s.ends_with(suffix)
}

/// `usize::to_string`: the number in decimal.
#[verifier::external_body]
pub(crate) fn decimal(n: usize) -> (r: String)
    ensures
        r@ == decimal_digits(n as nat),
{
    n.to_string()
}

/// Joins `parts` with `.` between neighbours.
pub fn join_dotted(parts: &Vec<String>) -> (r: String)
    ensures
        r@ == dotted(texts(parts@)),
{
    let mut out = String::new();
    let mut i: usize = 0;
    while i < parts.len()
        invariant
            i <= parts.len(),
            out@ == dotted(texts(parts@).subrange(0, i as int)),
        decreases parts.len() - i,
    {
        proof {
            let before = texts(parts@).subrange(0, i as int);
            let after = texts(parts@).subrange(0, i + 1);
            assert(after.drop_last() =~= before);
            assert(after.last() == parts@[i as int]@);
            reveal_strlit(".");
            assert("."@ =~= seq!['.']);
        }
        if i > 0 {
            out.append(".");
        }
        out.append(parts[i].as_str());
        proof {
            assert(dotted(Seq::<Seq<char>>::empty()) =~= Seq::<char>::empty());
            if i == 0 {
                assert(out@ =~= parts@[0]@);
            }
        }
        i += 1;
    }
    proof {
        assert(texts(parts@).subrange(0, parts.len() as int) =~= texts(parts@));
    }
    out
}

/// The order of strings: character by character by code point, a proper
/// prefix coming first.
pub open spec fn lex_le(a: Seq<char>, b: Seq<char>) -> bool
    decreases a.len(),
{
    if a.len() == 0 {
        true
    } else if b.len() == 0 {
        false
    } else if (a[0] as int) < (b[0] as int) {
        true
    } else if (a[0] as int) > (b[0] as int) {
        false
    } else {
        lex_le(a.drop_first(), b.drop_first())
    }
}

/// Of two strings one is not greater than the other.
pub proof fn lemma_lex_le_total(a: Seq<char>, b: Seq<char>)
    ensures
        lex_le(a, b) || lex_le(b, a),
    decreases a.len(),
{
    if a.len() > 0 && b.len() > 0 && (a[0] as int) == (b[0] as int) {
        lemma_lex_le_total(a.drop_first(), b.drop_first());
    }
}

/// The order of strings is transitive.
pub proof fn lemma_lex_le_transitive(a: Seq<char>, b: Seq<char>, c: Seq<char>)
    requires
        lex_le(a, b),
        lex_le(b, c),
    ensures
        lex_le(a, c),
    decreases a.len(),
{
    if a.len() > 0 && b.len() > 0 && c.len() > 0 {
        if (a[0] as int) == (b[0] as int) && (b[0] as int) == (c[0] as int) {
            lemma_lex_le_transitive(a.drop_first(), b.drop_first(), c.drop_first());
        }
    }
}

/// Two strings of which neither is greater than the other are the same.
pub proof fn lemma_lex_le_antisymmetric(a: Seq<char>, b: Seq<char>)
    requires
        lex_le(a, b),
        lex_le(b, a),
    ensures
        a == b,
    decreases a.len(),
{
    if a.len() > 0 && b.len() > 0 {
        assert(a[0] == b[0]);
        lemma_lex_le_antisymmetric(a.drop_first(), b.drop_first());
        assert(a =~= seq![a[0]] + a.drop_first());
        assert(b =~= seq![b[0]] + b.drop_first());
    } else {
        assert(a =~= b);
    }
}

/// Whether `first` goes before `second`, or may stand for it, in the order
/// by key and then by text: the key of `first` is not greater, and where
/// the keys do not tell the two apart, `first` itself is not greater.
pub open spec fn goes_before(first_key: Seq<char>, first: Seq<char>, second_key: Seq<char>, second: Seq<char>) -> bool {
    lex_le(first_key, second_key) && (lex_le(second_key, first_key) ==> lex_le(first, second))
}

/// Of two strings with their keys one goes before the other.
pub proof fn lemma_goes_before_total(ka: Seq<char>, a: Seq<char>, kb: Seq<char>, b: Seq<char>)
    ensures
        goes_before(ka, a, kb, b) || goes_before(kb, b, ka, a),
{
    lemma_lex_le_total(ka, kb);
    lemma_lex_le_total(a, b);
}

/// The order by key and then by text is transitive.
pub proof fn lemma_goes_before_transitive(
    ka: Seq<char>,
    a: Seq<char>,
    kb: Seq<char>,
    b: Seq<char>,
    kc: Seq<char>,
    c: Seq<char>,
)
    requires
        goes_before(ka, a, kb, b),
        goes_before(kb, b, kc, c),
    ensures
        goes_before(ka, a, kc, c),
{
    lemma_lex_le_transitive(ka, kb, kc);
    if lex_le(kc, ka) {
        lemma_lex_le_transitive(kc, ka, kb);
        lemma_lex_le_transitive(kb, kc, ka);
        lemma_lex_le_transitive(a, b, c);
    }
}

/// Whether `keys` ascends: no key is greater than a later one.
pub open spec fn ascending(keys: Seq<Seq<char>>) -> bool {
    forall|i: int, j: int| 0 <= i < j < keys.len() ==> lex_le(#[trigger] keys[i], #[trigger] keys[j])
}

/// `str`'s `<=`: whether `a` is not greater than `b`, strings being ordered
/// by their bytes, which is the order of their code points.
#[verifier::external_body]
pub(crate) fn string_le(a: &str, b: &str) -> (r: bool)
    ensures
        r == lex_le(a@, b@),
{
    a <= b
}

/// The strings of `parts` with `separator` between neighbours.
pub open spec fn joined(parts: Seq<Seq<char>>, separator: Seq<char>) -> Seq<char>
    decreases parts.len(),
{
    if parts.len() == 0 {
        Seq::empty()
    } else if parts.len() == 1 {
        parts[0]
    } else {
        joined(parts.drop_last(), separator) + separator + parts.last()
    }
}

/// Joins `parts` with `separator` between neighbours.
pub fn join_with(parts: &Vec<String>, separator: &str) -> (r: String)
    ensures
        r@ == joined(texts(parts@), separator@),
{
    let mut out = String::new();
    let mut i: usize = 0;
    while i < parts.len()
        invariant
            i <= parts.len(),
            out@ == joined(texts(parts@).subrange(0, i as int), separator@),
        decreases parts.len() - i,
    {
        proof {
            let before = texts(parts@).subrange(0, i as int);
            let after = texts(parts@).subrange(0, i + 1);
            assert(after.drop_last() =~= before);
            assert(after.last() == parts@[i as int]@);
        }
        if i > 0 {
            out.append(separator);
        }
        out.append(parts[i].as_str());
        proof {
            if i == 0 {
                assert(out@ =~= parts@[0]@);
            }
        }
        i += 1;
    }
    proof {
        assert(texts(parts@).subrange(0, parts.len() as int) =~= texts(parts@));
    }
    out
}

/// `s` taken apart at its dots: the pieces between them, in order; one
/// piece more than there are dots.
pub open spec fn split_at_dots(s: Seq<char>) -> Seq<Seq<char>>
    decreases s.len(),
{
    if s.len() == 0 {
        seq![Seq::empty()]
    } else {
        let front = split_at_dots(s.drop_last());
        if s.last() == '.' {
            front.push(Seq::empty())
        } else {
            front.update(front.len() - 1, front.last().push(s.last()))
        }
    }
}

/// `str::split` at `.`: the pieces of `s` between its dots, in order.
#[verifier::external_body]
pub(crate) fn split_dots(s: &str) -> (r: Vec<String>)
    ensures
        texts(r@) == split_at_dots(s@),
{
    s.split('.').map(|piece| piece.to_string()).collect()
}

/// The position of the first `@` in `s`, or `-1`.
pub open spec fn first_at_sign(s: Seq<char>) -> int
    decreases s.len(),
{
    if s.len() == 0 {
        -1
    } else if first_at_sign(s.drop_last()) >= 0 {
        first_at_sign(s.drop_last())
    } else if s.last() == '@' {
        s.len() - 1
    } else {
        -1
    }
}

/// `s` taken apart at its first `@`: what stands before it and what stands
/// behind it; nothing where `s` holds no `@`.
pub open spec fn split_at_first_at_sign(s: Seq<char>) -> Option<(Seq<char>, Seq<char>)> {
    let at = first_at_sign(s);
    if at < 0 {
        None
    } else {
        Some((s.subrange(0, at), s.subrange(at + 1, s.len() as int)))
    }
}

/// `str::split_once` at `@`: what stands before the first `@` of `s` and
/// what stands behind it.
#[verifier::external_body]
pub(crate) fn split_once_at_sign(s: &str) -> (r: Option<(String, String)>)
    ensures
        match r {
            Some((head, tail)) => split_at_first_at_sign(s@) == Some((head@, tail@)),
            None => split_at_first_at_sign(s@) is None,
        },
{
    s.split_once('@').map(|(head, tail)| (head.to_string(), tail.to_string()))
}

} // verus!
