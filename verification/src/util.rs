//! Conversions between the wire form of a parameter name (a fixed-width
//! array of characters, padded with NUL) and its textual form, plus the
//! grammar of the textual form of a parameter value.
//!
//! A parameter value travels through this library as decimal text. The text
//! is well formed when it matches the grammar of a 32-bit float literal:
//! an optional sign, then either a special word (`inf`, `infinity`, `nan`,
//! in any case) or a mantissa of digits with at most one dot and at least
//! one digit, optionally followed by an exponent marker `e`/`E`, an
//! optional sign and one or more digits.

use vstd::prelude::*;

verus! {

/// Relies on `String::push`: appends one character to the string.
pub assume_specification[ String::push ](s: &mut String, c: char)
    ensures
        final(s)@ == old(s)@.push(c),
;

/// The characters of `s` that are not NUL, in order.
pub open spec fn strip_nuls(s: Seq<char>) -> Seq<char> {
    s.filter(|c: char| c != '\u{0}')
}

/// Extract the textual name from its fixed-width wire form: every NUL
/// character is dropped (trailing NULs are padding).
pub fn to_string(input_slice: &[char]) -> (r: String)
    ensures
        r@ == strip_nuls(input_slice@),
{
    let mut result = String::new();
    let mut i: usize = 0;
    while i < input_slice.len()
        invariant
            i <= input_slice.len(),
            result@ == strip_nuls(input_slice@.take(i as int)),
        decreases input_slice.len() - i,
    {
        let c = input_slice[i];
        proof {
            let pred = |ch: char| ch != '\u{0}';
            reveal_with_fuel(Seq::filter, 2);
            assert(input_slice@.take(i + 1) =~= input_slice@.take(i as int) + seq![c]);
            Seq::filter_distributes_over_add(input_slice@.take(i as int), seq![c], pred);
            assert(seq![c].drop_last() =~= Seq::<char>::empty());
        }
        if c != '\u{0}' {
            result.push(c);
        }
        i = i + 1;
    }
    proof {
        assert(input_slice@.take(input_slice@.len() as int) =~= input_slice@);
    }
    result
}

/// Pack a textual name into its fixed-width wire form, padding with
/// trailing NUL characters.
pub fn to_char_arr(input: &str) -> (r: [char; 16])
    requires
        input@.len() <= 16,
    ensures
        forall|i: int| 0 <= i < input@.len() ==> r@[i] == input@[i],
        forall|i: int| input@.len() <= i < 16 ==> r@[i] == '\u{0}',
{
    let mut result: [char; 16] = ['\u{0}'; 16];
    let n = input.unicode_len();
    let mut i: usize = 0;
    while i < n
        invariant
            n == input@.len() <= 16,
            i <= n,
            forall|j: int| 0 <= j < i ==> result@[j] == input@[j],
            forall|j: int| i <= j < 16 ==> result@[j] == '\u{0}',
        decreases n - i,
    {
        result[i] = input.get_char(i);
        i = i + 1;
    }
    result
}

/// The characters of a string, as a vector.
pub fn str_chars(s: &str) -> (r: Vec<char>)
    ensures
        r@ == s@,
{
    let n = s.unicode_len();
    let mut result: Vec<char> = Vec::new();
    let mut i: usize = 0;
    while i < n
        invariant
            n == s@.len(),
            i <= n,
            result@ == s@.take(i as int),
        decreases n - i,
    {
        result.push(s.get_char(i));
        proof {
            assert(result@ =~= s@.take(i + 1));
        }
        i = i + 1;
    }
    proof {
        assert(s@.take(n as int) =~= s@);
    }
    result
}

/// Lexicographic order on texts, by character scalar value.
pub open spec fn seq_lt(a: Seq<char>, b: Seq<char>) -> bool
    decreases a.len() + b.len(),
{
    if b.len() == 0 {
        false
    } else if a.len() == 0 {
        true
    } else if (a[0] as u32) < (b[0] as u32) {
        true
    } else if (a[0] as u32) > (b[0] as u32) {
        false
    } else {
        seq_lt(a.drop_first(), b.drop_first())
    }
}

/// Of two texts, either one is below the other or they are equal.
pub proof fn lemma_seq_lt_trichotomy(a: Seq<char>, b: Seq<char>)
    ensures
        seq_lt(a, b) || seq_lt(b, a) || a == b,
    decreases a.len() + b.len(),
{
    if b.len() == 0 && a.len() == 0 {
        assert(a =~= b);
    } else if a.len() > 0 && b.len() > 0 {
        if (a[0] as u32) == (b[0] as u32) {
            vstd::utf8::char_u32_cast(a[0], a[0] as u32);
            vstd::utf8::char_u32_cast(b[0], b[0] as u32);
            assert(a[0] == b[0]);
            lemma_seq_lt_trichotomy(a.drop_first(), b.drop_first());
            if a.drop_first() == b.drop_first() {
                assert(a.drop_first().len() == b.drop_first().len());
                assert(a.len() == b.len());
                assert forall|i: int| 1 <= i < a.len() implies a[i] == b[i] by {
                    assert(a[i] == a.drop_first()[i - 1]);
                    assert(b[i] == b.drop_first()[i - 1]);
                }
                assert(a =~= b);
            }
        }
    }
}

/// The order on texts is irreflexive.
pub proof fn lemma_seq_lt_irreflexive(a: Seq<char>)
    ensures
        !seq_lt(a, a),
    decreases a.len(),
{
    if a.len() > 0 {
        lemma_seq_lt_irreflexive(a.drop_first());
    }
}

/// The order on texts is transitive.
pub proof fn lemma_seq_lt_transitive(a: Seq<char>, b: Seq<char>, c: Seq<char>)
    requires
        seq_lt(a, b),
        seq_lt(b, c),
    ensures
        seq_lt(a, c),
    decreases a.len() + b.len() + c.len(),
{
    if a.len() > 0 && b.len() > 0 && c.len() > 0 {
        if (a[0] as u32) == (b[0] as u32) && (b[0] as u32) == (c[0] as u32) {
            lemma_seq_lt_transitive(a.drop_first(), b.drop_first(), c.drop_first());
        }
    }
}

/// Whether `a` is below `b` in the lexicographic order on texts.
pub fn str_lt(a: &str, b: &str) -> (r: bool)
    ensures
        r == seq_lt(a@, b@),
{
    let la = a.unicode_len();
    let lb = b.unicode_len();
    proof {
        assert(a@.skip(0) =~= a@);
        assert(b@.skip(0) =~= b@);
    }
    let mut i: usize = 0;
    while i < la && i < lb
        invariant
            i <= la,
            i <= lb,
            la == a@.len(),
            lb == b@.len(),
            seq_lt(a@, b@) == seq_lt(a@.skip(i as int), b@.skip(i as int)),
        decreases la - i,
    {
        let ca = a.get_char(i);
        let cb = b.get_char(i);
        proof {
            assert(a@.skip(i as int)[0] == ca);
            assert(b@.skip(i as int)[0] == cb);
            assert(a@.skip(i as int).drop_first() =~= a@.skip(i + 1));
            assert(b@.skip(i as int).drop_first() =~= b@.skip(i + 1));
        }
        if (ca as u32) < (cb as u32) {
            return true;
        }
        if (ca as u32) > (cb as u32) {
            return false;
        }
        i = i + 1;
    }
    proof {
        if i == la && la < lb {
            assert(a@.skip(i as int).len() == 0 && b@.skip(i as int).len() > 0);
        } else {
            assert(b@.skip(i as int).len() == 0);
        }
    }
    la < lb
}

/// A decimal digit.
pub open spec fn is_digit(c: char) -> bool {
    48 <= c as u32 <= 57
}

/// A leading sign.
pub open spec fn is_sign(c: char) -> bool {
    c == '+' || c == '-'
}

/// An exponent marker.
pub open spec fn is_exp_marker(c: char) -> bool {
    c == 'e' || c == 'E'
}

/// The text with a leading sign, if any, removed.
pub open spec fn strip_sign(s: Seq<char>) -> Seq<char> {
    if s.len() > 0 && is_sign(s[0]) {
        s.drop_first()
    } else {
        s
    }
}

/// Every character in the text is a digit.
pub open spec fn all_digits(s: Seq<char>) -> bool {
    forall|i: int| 0 <= i < s.len() ==> is_digit(#[trigger] s[i])
}

/// A mantissa: nonempty, only digits and at most one dot, at least one digit.
pub open spec fn is_mantissa_text(s: Seq<char>) -> bool {
    &&& s.len() > 0
    &&& forall|i: int| 0 <= i < s.len() ==> is_digit(#[trigger] s[i]) || s[i] == '.'
    &&& exists|i: int| 0 <= i < s.len() && is_digit(#[trigger] s[i])
    &&& forall|i: int, j: int| 0 <= i < j < s.len() && #[trigger] s[i] == '.' ==> #[trigger] s[j] != '.'
}

/// What may follow an exponent marker: an optional sign, then digits.
pub open spec fn is_exponent_text(s: Seq<char>) -> bool {
    strip_sign(s).len() > 0 && all_digits(strip_sign(s))
}

/// A number: a mantissa, optionally followed by a marker and an exponent.
pub open spec fn is_number_text(s: Seq<char>) -> bool {
    ||| is_mantissa_text(s)
    ||| exists|k: int|
        0 <= k < s.len() && is_exp_marker(#[trigger] s[k]) && is_mantissa_text(s.take(k))
            && is_exponent_text(s.skip(k + 1))
}

/// The scalar value of the character, with an ASCII upper-case letter
/// folded to lower case.
pub open spec fn lower_scalar(c: char) -> u32 {
    if 65 <= c as u32 <= 90 {
        (c as u32 + 32) as u32
    } else {
        c as u32
    }
}

/// The texts are equal once `s` is folded to lower case (`t` given lower).
pub open spec fn eq_ignore_case(s: Seq<char>, t: Seq<char>) -> bool {
    s.len() == t.len() && forall|i: int|
        0 <= i < s.len() ==> lower_scalar(#[trigger] s[i]) == t[i] as u32
}

/// One of the special float words, in any case.
pub open spec fn is_special_text(s: Seq<char>) -> bool {
    ||| eq_ignore_case(s, seq!['i', 'n', 'f'])
    ||| eq_ignore_case(s, seq!['i', 'n', 'f', 'i', 'n', 'i', 't', 'y'])
    ||| eq_ignore_case(s, seq!['n', 'a', 'n'])
}

/// The text denotes a 32-bit float: an optional sign, then a special word
/// or a number.
pub open spec fn is_float_text(s: Seq<char>) -> bool {
    is_special_text(strip_sign(s)) || is_number_text(strip_sign(s))
}

/// A character that cannot disturb the file format: not a comma, not a
/// comment mark, not a line break.
pub open spec fn is_plain_char(c: char) -> bool {
    c != ',' && c != '#' && c != '\n' && c != '\r'
}

/// Float text is nonempty and never holds a comma, a comment mark or a
/// line break, so it survives a `name,value` line unharmed.
pub proof fn lemma_float_text_plain(v: Seq<char>)
    requires
        is_float_text(v),
    ensures
        v.len() > 0,
        forall|i: int| 0 <= i < v.len() ==> is_plain_char(#[trigger] v[i]),
{
    let body = strip_sign(v);
    let off: int = v.len() - body.len();
    assert(off == 0 || (off == 1 && is_sign(v[0])));
    assert forall|j: int| 0 <= j < body.len() implies body[j] == v[j + off] by {
        if off == 1 {
            assert(body[j] == v.drop_first()[j]);
        }
    }
    if is_special_text(body) {
        assert(body.len() == 3 || body.len() == 8);
        assert forall|j: int| 0 <= j < body.len() implies is_plain_char(#[trigger] body[j]) by {
            if eq_ignore_case(body, seq!['i', 'n', 'f']) {
                assert(lower_scalar(body[j]) == seq!['i', 'n', 'f'][j] as u32);
            } else if eq_ignore_case(body, seq!['i', 'n', 'f', 'i', 'n', 'i', 't', 'y']) {
                assert(lower_scalar(body[j]) == seq!['i', 'n', 'f', 'i', 'n', 'i', 't', 'y'][j]
                    as u32);
            } else {
                assert(lower_scalar(body[j]) == seq!['n', 'a', 'n'][j] as u32);
            }
        }
    } else {
        assert(is_number_text(body));
        if is_mantissa_text(body) {
            assert forall|j: int| 0 <= j < body.len() implies is_plain_char(
                #[trigger] body[j],
            ) by {}
        } else {
            let k = choose|k: int|
                0 <= k < body.len() && is_exp_marker(#[trigger] body[k]) && is_mantissa_text(
                    body.take(k),
                ) && is_exponent_text(body.skip(k + 1));
            let expo = body.skip(k + 1);
            let digits = strip_sign(expo);
            let eoff: int = expo.len() - digits.len();
            assert forall|j: int| 0 <= j < body.len() implies is_plain_char(
                #[trigger] body[j],
            ) by {
                if j < k {
                    assert(body.take(k)[j] == body[j]);
                    assert(is_digit(body.take(k)[j]) || body.take(k)[j] == '.');
                } else if j > k {
                    let e = j - (k + 1);
                    assert(expo[e] == body[j]);
                    if e == 0 && eoff == 1 {
                        assert(is_sign(expo[0]));
                    } else {
                        assert(digits[e - eoff] == expo[e]) by {
                            if eoff == 1 {
                                assert(digits[e - 1] == expo.drop_first()[e - 1]);
                            }
                        }
                        assert(is_digit(digits[e - eoff]));
                    }
                }
            }
        }
    }
    assert(body.len() > 0);
    assert forall|i: int| 0 <= i < v.len() implies is_plain_char(#[trigger] v[i]) by {
        if off == 1 && i == 0 {
            assert(is_sign(v[0]));
        } else {
            assert(v[i] == body[i - off]);
        }
    }
}

/// Whether `c`, folded to lower case, is the lower-case letter `low`.
fn eq_ci(c: char, low: char) -> (r: bool)
    ensures
        r == (lower_scalar(c) == low as u32),
{
    let u = c as u32;
    let l = low as u32;
    if 65 <= u && u <= 90 {
        u + 32 == l
    } else {
        u == l
    }
}

/// Whether the characters from `from` on are all digits.
fn check_all_digits(cs: &Vec<char>, from: usize) -> (r: bool)
    requires
        from <= cs@.len(),
    ensures
        r == all_digits(cs@.skip(from as int)),
{
    let n = cs.len();
    let mut i: usize = from;
    while i < n
        invariant
            from <= i <= n == cs@.len(),
            forall|j: int| from <= j < i ==> is_digit(#[trigger] cs@[j]),
        decreases n - i,
    {
        let u = cs[i] as u32;
        if u < 48 || u > 57 {
            proof {
                assert(cs@.skip(from as int)[i - from] == cs@[i as int]);
            }
            return false;
        }
        i = i + 1;
    }
    proof {
        assert forall|j: int| 0 <= j < cs@.skip(from as int).len() implies is_digit(
            #[trigger] cs@.skip(from as int)[j],
        ) by {
            assert(cs@.skip(from as int)[j] == cs@[j + from]);
        }
    }
    true
}

/// Whether the characters from `from` up to `to` form a mantissa.
fn check_mantissa(cs: &Vec<char>, from: usize, to: usize) -> (r: bool)
    requires
        from <= to <= cs@.len(),
    ensures
        r == is_mantissa_text(cs@.subrange(from as int, to as int)),
{
    let ghost sub = cs@.subrange(from as int, to as int);
    if from == to {
        return false;
    }
    let mut seen_digit = false;
    let mut seen_dot = false;
    let mut i: usize = from;
    while i < to
        invariant
            from <= i <= to <= cs@.len(),
            sub == cs@.subrange(from as int, to as int),
            forall|j: int| from <= j < i ==> is_digit(#[trigger] cs@[j]) || cs@[j] == '.',
            seen_digit == exists|j: int| from <= j < i && is_digit(#[trigger] cs@[j]),
            seen_dot == exists|j: int| from <= j < i && #[trigger] cs@[j] == '.',
            forall|j: int, k: int|
                from <= j < k < i && #[trigger] cs@[j] == '.' ==> #[trigger] cs@[k] != '.',
        decreases to - i,
    {
        let c = cs[i];
        let u = c as u32;
        if 48 <= u && u <= 57 {
            seen_digit = true;
        } else if c == '.' {
            if seen_dot {
                proof {
                    let j = choose|j: int| from <= j < i && #[trigger] cs@[j] == '.';
                    assert(sub[j - from] == cs@[j] && sub[i - from] == cs@[i as int]);
                }
                return false;
            }
            seen_dot = true;
        } else {
            proof {
                assert(sub[i - from] == cs@[i as int]);
            }
            return false;
        }
        i = i + 1;
    }
    proof {
        assert forall|j: int| 0 <= j < sub.len() implies is_digit(#[trigger] sub[j]) || sub[j]
            == '.' by {
            assert(sub[j] == cs@[j + from]);
        }
        if seen_digit {
            let j = choose|j: int| from <= j < to && is_digit(#[trigger] cs@[j]);
            assert(sub[j - from] == cs@[j]);
        }
        assert forall|j: int, k: int|
            0 <= j < k < sub.len() && #[trigger] sub[j] == '.' implies #[trigger] sub[k] != '.' by {
            assert(sub[j] == cs@[j + from] && sub[k] == cs@[k + from]);
        }
        if is_mantissa_text(sub) && !seen_digit {
            let j = choose|j: int| 0 <= j < sub.len() && is_digit(#[trigger] sub[j]);
            assert(cs@[j + from] == sub[j]);
        }
    }
    seen_digit
}

/// Whether the characters from `from` on form an exponent: an optional
/// sign, then one or more digits.
fn check_exponent(cs: &Vec<char>, from: usize) -> (r: bool)
    requires
        from <= cs@.len(),
    ensures
        r == is_exponent_text(cs@.skip(from as int)),
{
    let ghost sub = cs@.skip(from as int);
    let n = cs.len();
    let mut start = from;
    if from < n && (cs[from] == '+' || cs[from] == '-') {
        start = from + 1;
        proof {
            assert(sub[0] == cs@[from as int]);
            assert(strip_sign(sub) =~= cs@.skip(start as int));
        }
    } else {
        proof {
            if sub.len() > 0 {
                assert(sub[0] == cs@[from as int]);
            }
            assert(strip_sign(sub) =~= cs@.skip(start as int));
        }
    }
    if start == n {
        return false;
    }
    check_all_digits(cs, start)
}

/// Whether the whole text matches a special word, in any case.
fn check_special(cs: &Vec<char>, from: usize) -> (r: bool)
    requires
        from <= cs@.len(),
    ensures
        r == is_special_text(cs@.skip(from as int)),
{
    let ghost sub = cs@.skip(from as int);
    let n = cs.len();
    let len = n - from;
    if len != 3 && len != 8 {
        return false;
    }
    proof {
        assert(sub[0] == cs@[from as int]);
        assert(sub[1] == cs@[from + 1]);
        assert(sub[2] == cs@[from + 2]);
        if len == 8 {
            assert(sub[3] == cs@[from + 3]);
            assert(sub[4] == cs@[from + 4]);
            assert(sub[5] == cs@[from + 5]);
            assert(sub[6] == cs@[from + 6]);
            assert(sub[7] == cs@[from + 7]);
        }
    }
    let r = if len == 3 {
        (eq_ci(cs[from], 'i') && eq_ci(cs[from + 1], 'n') && eq_ci(cs[from + 2], 'f')) || (eq_ci(
            cs[from],
            'n',
        ) && eq_ci(cs[from + 1], 'a') && eq_ci(cs[from + 2], 'n'))
    } else {
        eq_ci(cs[from], 'i') && eq_ci(cs[from + 1], 'n') && eq_ci(cs[from + 2], 'f') && eq_ci(
            cs[from + 3],
            'i',
        ) && eq_ci(cs[from + 4], 'n') && eq_ci(cs[from + 5], 'i') && eq_ci(cs[from + 6], 't')
            && eq_ci(cs[from + 7], 'y')
    };
    proof {
        if r {
            assert(is_special_text(sub));
        } else {
            assert(!eq_ignore_case(sub, seq!['i', 'n', 'f']));
            assert(!eq_ignore_case(sub, seq!['i', 'n', 'f', 'i', 'n', 'i', 't', 'y']));
            assert(!eq_ignore_case(sub, seq!['n', 'a', 'n']));
        }
    }
    r
}

/// Whether the text denotes a 32-bit float.
pub fn check_float_text(s: &str) -> (r: bool)
    ensures
        r == is_float_text(s@),
{
    let cs = str_chars(s);
    let n = cs.len();
    let mut body: usize = 0;
    if n > 0 && (cs[0] == '+' || cs[0] == '-') {
        body = 1;
    }
    proof {
        assert(strip_sign(cs@) =~= cs@.skip(body as int));
    }
    if check_special(&cs, body) {
        return true;
    }
    // find the first exponent marker at or after `body`
    let mut marker: Option<usize> = None;
    let mut i: usize = body;
    while i < n && marker.is_none()
        invariant
            body <= i <= n == cs@.len(),
            match marker {
                Option::None => forall|j: int| body <= j < i ==> !is_exp_marker(#[trigger] cs@[j]),
                Option::Some(k) => body <= k < i <= n && is_exp_marker(cs@[k as int]) && forall|
                    j: int,
                |
                    body <= j < k ==> !is_exp_marker(#[trigger] cs@[j]),
            },
        decreases n - i,
    {
        let c = cs[i];
        if c == 'e' || c == 'E' {
            marker = Some(i);
        }
        i = i + 1;
    }
    let ghost bodyseq = cs@.skip(body as int);
    match marker {
        None => {
            let r = check_mantissa(&cs, body, n);
            proof {
                assert(cs@.subrange(body as int, n as int) =~= bodyseq);
                if !r {
                    // with no marker anywhere, the exponent form is out too
                    assert forall|k: int|
                        0 <= k < bodyseq.len() implies !(is_exp_marker(#[trigger] bodyseq[k])
                        && is_mantissa_text(bodyseq.take(k)) && is_exponent_text(
                        bodyseq.skip(k + 1),
                    )) by {
                        assert(bodyseq[k] == cs@[k + body]);
                    }
                }
            }
            r
        },
        Some(k) => {
            let r = check_mantissa(&cs, body, k) && check_exponent(&cs, k + 1);
            proof {
                let ki = k - body;
                assert(bodyseq[ki] == cs@[k as int]);
                assert(bodyseq.take(ki) =~= cs@.subrange(body as int, k as int));
                assert(bodyseq.skip(ki + 1) =~= cs@.skip(k + 1));
                if r {
                    assert(is_number_text(bodyseq));
                } else {
                    // a mantissa holds no marker, so no other split works
                    assert forall|k2: int|
                        0 <= k2 < bodyseq.len() && is_exp_marker(#[trigger] bodyseq[k2])
                            && is_mantissa_text(bodyseq.take(k2)) implies !is_exponent_text(
                        bodyseq.skip(k2 + 1),
                    ) by {
                        assert forall|j: int| body <= j < k implies !is_exp_marker(
                            #[trigger] cs@[j],
                        ) by {}
                        if k2 < ki {
                            assert(bodyseq[k2] == cs@[k2 + body]);
                        } else if k2 > ki {
                            assert(bodyseq.take(k2)[ki] == bodyseq[ki]);
                            assert(!(is_digit(bodyseq[ki]) || bodyseq[ki] == '.'));
                        }
                    }
                    assert(!is_mantissa_text(bodyseq)) by {
                        if is_mantissa_text(bodyseq) {
                            assert(!(is_digit(bodyseq[ki]) || bodyseq[ki] == '.'));
                        }
                    }
                }
            }
            r
        },
    }
}

} // verus!
