//! Character and string helpers shared by the credential, follow-list and
//! watch modules: ASCII whitespace trimming, ASCII lowercasing, and a
//! decimal parser for menu selections.

use vstd::prelude::*;

verus! {

/// ASCII whitespace, the class trimmed from credential fields.
pub open spec fn is_space_char(c: char) -> bool {
    c == ' ' || c == '\t' || c == '\n' || c == '\r' || c == '\x0c'
}

/// Every character of `s` is whitespace (in particular, an empty `s`).
pub open spec fn is_blank(s: Seq<char>) -> bool {
    forall|i: int| 0 <= i < s.len() ==> is_space_char(s[i])
}

fn is_space(c: char) -> (r: bool)
    ensures
        r == is_space_char(c),
{
    c == ' ' || c == '\t' || c == '\n' || c == '\r' || c == '\x0c'
}

/// A credential field counts as present only if it holds a non-whitespace
/// character.
pub fn is_blank_str(s: &str) -> (r: bool)
    ensures
        r == is_blank(s@),
{
    let n = s.unicode_len();
    let mut i: usize = 0;
    while i < n
        invariant
            0 <= i <= n,
            n == s@.len(),
            forall|j: int| 0 <= j < i ==> is_space_char(s@[j]),
        decreases n - i,
    {
        if !is_space(s.get_char(i)) {
            return false;
        }
        i = i + 1;
    }
    true
}

/// `s` without its leading whitespace.
pub open spec fn drop_leading_spaces(s: Seq<char>) -> Seq<char>
    decreases s.len(),
{
    if s.len() > 0 && is_space_char(s[0]) {
        drop_leading_spaces(s.drop_first())
    } else {
        s
    }
}

/// `s` without its trailing whitespace.
pub open spec fn drop_trailing_spaces(s: Seq<char>) -> Seq<char>
    decreases s.len(),
{
    if s.len() > 0 && is_space_char(s[s.len() - 1]) {
        drop_trailing_spaces(s.drop_last())
    } else {
        s
    }
}

/// `s` without leading and trailing whitespace.
pub open spec fn trimmed(s: Seq<char>) -> Seq<char> {
    drop_trailing_spaces(drop_leading_spaces(s))
}

proof fn lemma_drop_leading_is_skip(s: Seq<char>, k: int)
    requires
        0 <= k <= s.len(),
        forall|i: int| 0 <= i < k ==> is_space_char(s[i]),
        k == s.len() || !is_space_char(s[k]),
    ensures
        drop_leading_spaces(s) == s.skip(k),
    decreases k,
{
    if k == 0 {
        assert(s.skip(0) =~= s);
    } else {
        lemma_drop_leading_is_skip(s.drop_first(), k - 1);
        assert(s.drop_first().skip(k - 1) =~= s.skip(k));
    }
}

proof fn lemma_drop_trailing_is_take(s: Seq<char>, k: int)
    requires
        0 <= k <= s.len(),
        forall|i: int| k <= i < s.len() ==> is_space_char(s[i]),
        k == 0 || !is_space_char(s[k - 1]),
    ensures
        drop_trailing_spaces(s) == s.take(k),
    decreases s.len() - k,
{
    if k == s.len() {
        assert(s.take(k) =~= s);
    } else {
        lemma_drop_trailing_is_take(s.drop_last(), k);
        assert(s.drop_last().take(k) =~= s.take(k));
    }
}

/// `s` without leading and trailing ASCII whitespace, as `str::trim` of the
/// standard library computes it for ASCII input.
pub fn trim_str(s: &str) -> (r: &str)
    ensures
        r@ == trimmed(s@),
{
    let n = s.unicode_len();
    let mut start: usize = 0;
    while start < n && is_space(s.get_char(start))
        invariant
            0 <= start <= n,
            n == s@.len(),
            forall|j: int| 0 <= j < start ==> is_space_char(s@[j]),
        decreases n - start,
    {
        start = start + 1;
    }
    let mut end: usize = n;
    while end > start && is_space(s.get_char(end - 1))
        invariant
            start <= end <= n,
            n == s@.len(),
            forall|j: int| 0 <= j < start ==> is_space_char(s@[j]),
            start == n || !is_space_char(s@[start as int]),
            forall|j: int| end <= j < n ==> is_space_char(s@[j]),
        decreases end,
    {
        end = end - 1;
    }
    proof {
        lemma_drop_leading_is_skip(s@, start as int);
        let t = s@.skip(start as int);
        lemma_drop_trailing_is_take(t, end - start);
        assert(t.take(end - start) =~= s@.subrange(start as int, end as int));
    }
    s.substring_char(start, end)
}

/// A trimmed sequence is empty exactly when the original is all whitespace.
pub proof fn lemma_trimmed_empty_iff_blank(s: Seq<char>)
    ensures
        trimmed(s).len() == 0 <==> is_blank(s),
{
    if is_blank(s) {
        lemma_drop_leading_is_skip(s, s.len() as int);
        assert(s.skip(s.len() as int) =~= Seq::<char>::empty());
    } else {
        let k = choose|k: int| 0 <= k < s.len() && !is_space_char(s[k]);
        let lo = choose|lo: int|
            0 <= lo <= k && !is_space_char(s[lo]) && forall|i: int|
                0 <= i < lo ==> is_space_char(s[i]);
        assert(exists|lo: int|
            0 <= lo <= k && !is_space_char(s[lo]) && forall|i: int|
                0 <= i < lo ==> is_space_char(s[i])) by {
            lemma_first_non_space_exists(s, k);
        }
        lemma_drop_leading_is_skip(s, lo);
        let t = s.skip(lo);
        assert(!is_space_char(t[0]));
        assert(drop_trailing_spaces(t).len() > 0) by {
            lemma_drop_trailing_keeps_head(t);
        }
    }
}

proof fn lemma_first_non_space_exists(s: Seq<char>, k: int)
    requires
        0 <= k < s.len(),
        !is_space_char(s[k]),
    ensures
        exists|lo: int|
            0 <= lo <= k && !is_space_char(s[lo]) && forall|i: int|
                0 <= i < lo ==> is_space_char(s[i]),
    decreases k,
{
    if forall|i: int| 0 <= i < k ==> is_space_char(s[i]) {
        assert(0 <= k <= k && !is_space_char(s[k]) && forall|i: int|
            0 <= i < k ==> is_space_char(s[i]));
    } else {
        let k2 = choose|k2: int| 0 <= k2 < k && !is_space_char(s[k2]);
        lemma_first_non_space_exists(s, k2);
    }
}

proof fn lemma_drop_trailing_keeps_head(s: Seq<char>)
    requires
        s.len() > 0,
        !is_space_char(s[0]),
    ensures
        drop_trailing_spaces(s).len() > 0,
        drop_trailing_spaces(s)[0] == s[0],
    decreases s.len(),
{
    if s.len() > 0 && is_space_char(s[s.len() - 1]) {
        lemma_drop_trailing_keeps_head(s.drop_last());
    }
}

/// `c` with an ASCII capital letter mapped to its small form; any other
/// character is left alone.
pub open spec fn lower_char(c: char) -> char {
    if 65 <= c as u32 && c as u32 <= 90 {
        (c as u32 + 32) as char
    } else {
        c
    }
}

/// `s` lowercased character by character.
pub open spec fn lowered(s: Seq<char>) -> Seq<char> {
    s.map_values(|c: char| lower_char(c))
}

/// Relies on `String::push` of the standard library: it appends exactly the
/// given character.
#[verifier::external_body]
pub(crate) fn push_char(s: &mut String, c: char)
    ensures
        final(s)@ == old(s)@.push(c),
{
    s.push(c);
}

fn lower_char_exec(c: char) -> (r: char)
    ensures
        r == lower_char(c),
{
    let u = c as u32;
    if 65 <= u && u <= 90 {
        ((u + 32) as u8) as char
    } else {
        c
    }
}

/// The ASCII lowercase form of `s`; the case-insensitive identity under
/// which logins are compared and deduplicated.
pub fn lower_str(s: &str) -> (r: String)
    ensures
        r@ == lowered(s@),
{
    let n = s.unicode_len();
    let mut r = String::new();
    let mut i: usize = 0;
    while i < n
        invariant
            0 <= i <= n,
            n == s@.len(),
            r@ =~= lowered(s@).take(i as int),
        decreases n - i,
    {
        push_char(&mut r, lower_char_exec(s.get_char(i)));
        proof {
            assert(lowered(s@).take(i as int).push(lower_char(s@[i as int])) =~= lowered(
                s@,
            ).take(i + 1));
        }
        i = i + 1;
    }
    proof {
        assert(lowered(s@).take(n as int) =~= lowered(s@));
    }
    r
}

/// Strict lexicographic order on character sequences, by code point.
pub open spec fn lex_lt(a: Seq<char>, b: Seq<char>) -> bool
    decreases a.len(),
{
    if b.len() == 0 {
        false
    } else if a.len() == 0 {
        true
    } else if (a[0] as u32) < (b[0] as u32) {
        true
    } else if a[0] == b[0] {
        lex_lt(a.drop_first(), b.drop_first())
    } else {
        false
    }
}

/// Reflexive lexicographic order.
pub open spec fn lex_le(a: Seq<char>, b: Seq<char>) -> bool {
    lex_lt(a, b) || a == b
}

proof fn lemma_cons_eq(a: Seq<char>, b: Seq<char>)
    requires
        a.len() > 0,
        b.len() > 0,
        a[0] == b[0],
        a.drop_first() == b.drop_first(),
    ensures
        a == b,
{
    assert(a.drop_first().len() == a.len() - 1);
    assert(b.drop_first().len() == b.len() - 1);
    assert(a.len() == b.len());
    assert forall|i: int| 0 <= i < a.len() implies a[i] == b[i] by {
        if i > 0 {
            assert(a.drop_first()[i - 1] == a[i]);
            assert(b.drop_first()[i - 1] == b[i]);
        }
    }
    assert(a =~= b);
}

proof fn lemma_char_cast_injective(a: char, b: char)
    ensures
        (a as u32 == b as u32) <==> a == b,
{
}

/// Compares two strings in lexicographic code-point order, the order the
/// follow list is reported in.
pub fn str_le(a: &str, b: &str) -> (r: bool)
    ensures
        r == lex_le(a@, b@),
    decreases a@.len(),
{
    let an = a.unicode_len();
    let bn = b.unicode_len();
    if an == 0 {
        proof {
            if bn == 0 {
                assert(a@ =~= b@);
            }
        }
        return true;
    }
    if bn == 0 {
        return false;
    }
    let ac = a.get_char(0);
    let bc = b.get_char(0);
    proof {
        lemma_char_cast_injective(ac, bc);
    }
    if (ac as u32) != (bc as u32) {
        return (ac as u32) < (bc as u32);
    }
    let at = a.substring_char(1, an);
    let bt = b.substring_char(1, bn);
    proof {
        assert(at@ =~= a@.drop_first());
        assert(bt@ =~= b@.drop_first());
    }
    let r = str_le(at, bt);
    proof {
        if at@ == bt@ {
            lemma_cons_eq(a@, b@);
        }
    }
    r
}

/// The order is total: of two sequences one is less than or equal to the
/// other.
pub proof fn lemma_lex_total(a: Seq<char>, b: Seq<char>)
    ensures
        lex_le(a, b) || lex_le(b, a),
    decreases a.len() + b.len(),
{
    if a.len() == 0 && b.len() == 0 {
        assert(a =~= b);
    }
    if a.len() > 0 && b.len() > 0 {
        lemma_char_cast_injective(a[0], b[0]);
        if a[0] == b[0] {
            lemma_lex_total(a.drop_first(), b.drop_first());
            if a.drop_first() == b.drop_first() {
                lemma_cons_eq(a, b);
            }
        }
    }
}

/// The order is transitive.
pub proof fn lemma_lex_trans(a: Seq<char>, b: Seq<char>, c: Seq<char>)
    requires
        lex_le(a, b),
        lex_le(b, c),
    ensures
        lex_le(a, c),
    decreases a.len() + b.len() + c.len(),
{
    if a != b && b != c {
        if a.len() > 0 && b.len() > 0 && c.len() > 0 {
            lemma_char_cast_injective(a[0], b[0]);
            lemma_char_cast_injective(b[0], c[0]);
            lemma_char_cast_injective(a[0], c[0]);
            if a[0] == b[0] && b[0] == c[0] {
                lemma_lex_trans(a.drop_first(), b.drop_first(), c.drop_first());
                if a.drop_first() == c.drop_first() {
                    lemma_cons_eq(a, c);
                }
            }
        }
    }
}

/// Whether two strings hold the same characters.
pub fn str_eq(a: &str, b: &str) -> (r: bool)
    ensures
        r == (a@ == b@),
{
    let an = a.unicode_len();
    let bn = b.unicode_len();
    if an != bn {
        return false;
    }
    let mut i: usize = 0;
    while i < an
        invariant
            0 <= i <= an,
            an == a@.len(),
            bn == b@.len(),
            an == bn,
            forall|j: int| 0 <= j < i ==> a@[j] == b@[j],
        decreases an - i,
    {
        let ac = a.get_char(i);
        let bc = b.get_char(i);
        proof {
            lemma_char_cast_injective(ac, bc);
        }
        if (ac as u32) != (bc as u32) {
            return false;
        }
        i = i + 1;
    }
    proof {
        assert(a@ =~= b@);
    }
    true
}

/// `p` is an initial segment of `s`.
pub open spec fn has_prefix(s: Seq<char>, p: Seq<char>) -> bool {
    p.len() <= s.len() && s.take(p.len() as int) == p
}

/// `s` with a leading `p` removed, as `str::strip_prefix` computes it.
pub fn strip_prefix_str<'a>(s: &'a str, p: &str) -> (r: Option<&'a str>)
    ensures
        match r {
            Some(t) => has_prefix(s@, p@) && t@ == s@.skip(p@.len() as int),
            None => !has_prefix(s@, p@),
        },
{
    let sn = s.unicode_len();
    let pn = p.unicode_len();
    if pn > sn {
        return None;
    }
    let mut i: usize = 0;
    while i < pn
        invariant
            0 <= i <= pn,
            pn <= sn,
            sn == s@.len(),
            pn == p@.len(),
            forall|j: int| 0 <= j < i ==> s@[j] == p@[j],
        decreases pn - i,
    {
        let sc = s.get_char(i);
        let pc = p.get_char(i);
        proof {
            lemma_char_cast_injective(sc, pc);
        }
        if (sc as u32) != (pc as u32) {
            proof {
                assert(s@.take(pn as int)[i as int] == s@[i as int]);
            }
            return None;
        }
        i = i + 1;
    }
    let t = s.substring_char(pn, sn);
    proof {
        assert(s@.take(pn as int) =~= p@);
        assert(t@ =~= s@.skip(pn as int));
    }
    Some(t)
}

/// The numeric value of a sequence of decimal digit characters.
pub open spec fn decimal_value(s: Seq<char>) -> int
    decreases s.len(),
{
    if s.len() == 0 {
        0
    } else {
        decimal_value(s.drop_last()) * 10 + (s[s.len() - 1] as u32 - 48)
    }
}

/// Every character of `s` is an ASCII decimal digit.
pub open spec fn all_digits(s: Seq<char>) -> bool {
    forall|i: int| 0 <= i < s.len() ==> 48 <= #[trigger] (s[i] as u32) <= 57
}

/// Reads `s` as an unsigned decimal number: the way a menu selection typed
/// by the user is interpreted. `None` when `s` is empty, holds a non-digit,
/// or does not fit in `usize`.
pub fn parse_usize(s: &str) -> (r: Option<usize>)
    ensures
        match r {
            Some(v) => s@.len() > 0 && all_digits(s@) && v == decimal_value(s@) && decimal_value(
                s@,
            ) <= usize::MAX,
            None => s@.len() == 0 || !all_digits(s@) || decimal_value(s@) > usize::MAX,
        },
{
    let n = s.unicode_len();
    if n == 0 {
        return None;
    }
    let mut acc: usize = 0;
    let mut i: usize = 0;
    while i < n
        invariant
            0 <= i <= n,
            n == s@.len(),
            all_digits(s@.take(i as int)),
            acc == decimal_value(s@.take(i as int)),
        decreases n - i,
    {
        let c = s.get_char(i);
        let u = c as u32;
        if !(48 <= u && u <= 57) {
            proof {
                assert(!all_digits(s@));
            }
            return None;
        }
        let d = (u - 48) as usize;
        let shifted = match acc.checked_mul(10) {
            Some(v) => v,
            None => {
                proof {
                    if all_digits(s@) {
                        assert(s@.take(i + 1).drop_last() =~= s@.take(i as int));
                        lemma_decimal_monotone(s@, i + 1);
                    }
                }
                return None;
            },
        };
        let next = match shifted.checked_add(d) {
            Some(v) => v,
            None => {
                proof {
                    if all_digits(s@) {
                        assert(s@.take(i + 1).drop_last() =~= s@.take(i as int));
                        lemma_decimal_monotone(s@, i + 1);
                    }
                }
                return None;
            },
        };
        proof {
            assert(s@.take(i + 1).drop_last() =~= s@.take(i as int));
        }
        acc = next;
        i = i + 1;
    }
    proof {
        assert(s@.take(n as int) =~= s@);
    }
    Some(acc)
}

proof fn lemma_decimal_monotone(s: Seq<char>, k: int)
    requires
        0 <= k <= s.len(),
        all_digits(s),
    ensures
        decimal_value(s.take(k)) <= decimal_value(s),
        decimal_value(s) >= 0,
    decreases s.len() - k,
{
    lemma_decimal_nonneg(s);
    if k < s.len() {
        lemma_decimal_monotone(s, k + 1);
        assert(s.take(k + 1).drop_last() =~= s.take(k));
        lemma_decimal_nonneg(s.take(k));
        assert(decimal_value(s.take(k)) * 10 >= decimal_value(s.take(k))) by (nonlinear_arith)
            requires
                decimal_value(s.take(k)) >= 0,
        ;
    } else {
        assert(s.take(k) =~= s);
    }
}

proof fn lemma_decimal_nonneg(s: Seq<char>)
    requires
        all_digits(s),
    ensures
        decimal_value(s) >= 0,
    decreases s.len(),
{
    if s.len() > 0 {
        assert(all_digits(s.drop_last()));
        lemma_decimal_nonneg(s.drop_last());
        assert(decimal_value(s.drop_last()) * 10 >= 0) by (nonlinear_arith)
            requires
                decimal_value(s.drop_last()) >= 0,
        ;
    }
}

} // verus!
