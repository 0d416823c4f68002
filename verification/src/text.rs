//! Verified text utilities: equality and prefix tests on strings, HTML
//! escaping, JSX whitespace normalization, event-name derivation and decimal
//! rendering for generated names.

use vstd::prelude::*;

verus! {

/// Compare two string slices by their character sequences.
pub fn str_eq(a: &str, b: &str) -> (r: bool)
    ensures
        r == (a@ == b@),
{
    let sa: String = a.to_owned();
    let sb: String = b.to_owned();
    sa == sb
}

/// Relies on `String::from_iter` (through `Iterator::collect`): the collected
/// string holds exactly the characters of the vector, in order.
#[verifier::external_body]
pub fn chars_to_string(v: &Vec<char>) -> (r: String)
    ensures
        r@ == v@,
{
    v.iter().collect()
}

/// What `char::is_uppercase` returns for a character.
pub uninterp spec fn uppercase_char(c: char) -> bool;

/// Relies on `char::is_uppercase`: the property depends on the character
/// alone, and among ASCII characters exactly `A`-`Z` have it.
#[verifier::external_body]
pub fn is_uppercase_char(c: char) -> (r: bool)
    ensures
        r == uppercase_char(c),
        'A' <= c && c <= 'Z' ==> r,
        (c as u32) < 128 && !('A' <= c && c <= 'Z') ==> !r,
{
    c.is_uppercase()
}

/// What the first character of `char::to_lowercase` is for a character.
pub uninterp spec fn lowered_char(c: char) -> char;

/// Relies on `char::to_lowercase`: the mapping depends on the character
/// alone; ASCII `A`-`Z` map to `a`-`z` and every other ASCII character is
/// unchanged. The first character of the mapping is taken.
#[verifier::external_body]
pub fn to_lower_char(c: char) -> (r: char)
    ensures
        r == lowered_char(c),
        'A' <= c && c <= 'Z' ==> r as u32 == c as u32 + 32,
        (c as u32) < 128 && !('A' <= c && c <= 'Z') ==> r == c,
{
    c.to_lowercase().next().unwrap_or(c)
}

/// Whether `p` is a prefix of `s`.
pub open spec fn is_prefix_of(p: Seq<char>, s: Seq<char>) -> bool {
    p.len() <= s.len() && s.subrange(0, p.len() as int) == p
}

/// Prefix test over characters.
pub fn str_starts_with(s: &str, p: &str) -> (r: bool)
    ensures
        r == is_prefix_of(p@, s@),
{
    let sn = s.unicode_len();
    let pn = p.unicode_len();
    if pn > sn {
        proof {
            assert(!is_prefix_of(p@, s@));
        }
        return false;
    }
    let mut i: usize = 0;
    while i < pn
        invariant
            0 <= i <= pn,
            pn == p@.len(),
            sn == s@.len(),
            pn <= sn,
            forall|j: int| 0 <= j < i ==> s@[j] == p@[j],
        decreases pn - i,
    {
        if s.get_char(i) != p.get_char(i) {
            proof {
                assert(s@.subrange(0, pn as int)[i as int] != p@[i as int]);
            }
            return false;
        }
        i = i + 1;
    }
    proof {
        assert(s@.subrange(0, pn as int) =~= p@);
    }
    true
}

/// Whether `q` is a suffix of `s`.
pub open spec fn is_suffix_of(q: Seq<char>, s: Seq<char>) -> bool {
    q.len() <= s.len() && s.subrange(s.len() - q.len(), s.len() as int) == q
}

/// Suffix test over characters.
pub fn str_ends_with(s: &str, q: &str) -> (r: bool)
    ensures
        r == is_suffix_of(q@, s@),
{
    let sn = s.unicode_len();
    let qn = q.unicode_len();
    if qn > sn {
        proof {
            assert(!is_suffix_of(q@, s@));
        }
        return false;
    }
    let tail = s.substring_char(sn - qn, sn);
    let r = str_eq(tail, q);
    proof {
        assert(tail@ == s@.subrange(s@.len() - q@.len(), s@.len() as int));
    }
    r
}

/// Membership test for a character in a string.
pub fn str_contains_char(s: &str, c: char) -> (r: bool)
    ensures
        r == s@.contains(c),
{
    let n = s.unicode_len();
    let mut i: usize = 0;
    while i < n
        invariant
            0 <= i <= n,
            n == s@.len(),
            forall|j: int| 0 <= j < i ==> s@[j] != c,
        decreases n - i,
    {
        if s.get_char(i) == c {
            return true;
        }
        i = i + 1;
    }
    proof {
        assert(!s@.contains(c));
    }
    false
}

/// The HTML escape of one character: `&` and `<` are always escaped, `>` is
/// escaped in text position, and `"` is escaped in attribute position.
pub open spec fn escaped_char(c: char, for_attribute: bool) -> Seq<char> {
    if c == '&' {
        seq!['&', 'a', 'm', 'p', ';']
    } else if c == '<' {
        seq!['&', 'l', 't', ';']
    } else if c == '>' && !for_attribute {
        seq!['&', 'g', 't', ';']
    } else if c == '"' && for_attribute {
        seq!['&', 'q', 'u', 'o', 't', ';']
    } else {
        seq![c]
    }
}

/// The HTML escape of a string: each character escaped in order.
pub open spec fn spec_escape_html(s: Seq<char>, for_attribute: bool) -> Seq<char>
    decreases s.len(),
{
    if s.len() == 0 {
        Seq::empty()
    } else {
        spec_escape_html(s.drop_last(), for_attribute) + escaped_char(s.last(), for_attribute)
    }
}

/// HTML-escape a string for splicing into the template, either inside an
/// attribute value or in text position.
pub fn escape_html(s: &str, for_attribute: bool) -> (r: String)
    ensures
        r@ == spec_escape_html(s@, for_attribute),
{
    let n = s.unicode_len();
    let mut out: Vec<char> = Vec::new();
    let mut i: usize = 0;
    while i < n
        invariant
            0 <= i <= n,
            n == s@.len(),
            out@ == spec_escape_html(s@.subrange(0, i as int), for_attribute),
        decreases n - i,
    {
        let c = s.get_char(i);
        if c == '&' {
            out.push('&');
            out.push('a');
            out.push('m');
            out.push('p');
            out.push(';');
        } else if c == '<' {
            out.push('&');
            out.push('l');
            out.push('t');
            out.push(';');
        } else if c == '>' && !for_attribute {
            out.push('&');
            out.push('g');
            out.push('t');
            out.push(';');
        } else if c == '"' && for_attribute {
            out.push('&');
            out.push('q');
            out.push('u');
            out.push('o');
            out.push('t');
            out.push(';');
        } else {
            out.push(c);
        }
        proof {
            assert(s@.subrange(0, i + 1).drop_last() =~= s@.subrange(0, i as int));
            assert(s@.subrange(0, i + 1).last() == s@[i as int]);
        }
        i = i + 1;
    }
    proof {
        assert(s@.subrange(0, n as int) =~= s@);
    }
    chars_to_string(&out)
}

/// A string without the marker's opening character.
pub open spec fn no_open(s: Seq<char>) -> bool {
    forall|i: int| 0 <= i < s.len() ==> s[i] != '<'
}

/// A string without the marker's middle character.
pub open spec fn no_bang(s: Seq<char>) -> bool {
    forall|i: int| 0 <= i < s.len() ==> s[i] != '!'
}

/// A tag or attribute name as the parser produces it: free of the marker's
/// characters.
pub open spec fn safe_name(s: Seq<char>) -> bool {
    no_open(s) && no_bang(s)
}

/// How many times the marker text `<!>` occurs in a string.
pub open spec fn marker_count(s: Seq<char>) -> nat
    decreases s.len(),
{
    if s.len() < 3 {
        0
    } else {
        marker_count(s.drop_last()) + (if s[s.len() - 3] == '<' && s[s.len() - 2] == '!'
            && s.last() == '>' {
            1nat
        } else {
            0nat
        })
    }
}

/// A tail no marker can straddle: the text ends with neither `<` nor `<!`.
pub open spec fn tail_ok(s: Seq<char>) -> bool {
    &&& (s.len() >= 1 ==> s.last() != '<')
    &&& (s.len() >= 2 ==> !(s[s.len() - 2] == '<' && s.last() == '!'))
}

/// Appending adds marker occurrences piecewise when no occurrence straddles
/// the boundary.
pub proof fn lemma_marker_count_append(s: Seq<char>, p: Seq<char>)
    requires
        !(s.len() >= 1 && p.len() >= 2 && s.last() == '<' && p[0] == '!' && p[1] == '>'),
        !(s.len() >= 2 && p.len() >= 1 && s[s.len() - 2] == '<' && s.last() == '!' && p[0] == '>'),
    ensures
        marker_count(s + p) == marker_count(s) + marker_count(p),
    decreases p.len(),
{
    if p.len() == 0 {
        assert(s + p =~= s);
    } else {
        assert((s + p).drop_last() =~= s + p.drop_last());
        if p.len() >= 2 {
            assert(p.drop_last()[0] == p[0]);
        }
        lemma_marker_count_append(s, p.drop_last());
        let t = s + p;
        if t.len() >= 3 {
            if p.len() >= 3 {
                assert(t[t.len() - 3] == p[p.len() - 3]);
                assert(t[t.len() - 2] == p[p.len() - 2]);
                assert(t.last() == p.last());
            } else if p.len() == 2 {
                assert(t[t.len() - 3] == s.last());
                assert(t[t.len() - 2] == p[0]);
                assert(t.last() == p[1]);
                assert(!(t[t.len() - 3] == '<' && t[t.len() - 2] == '!' && t.last() == '>'));
                assert(marker_count(p) == 0);
            } else {
                assert(t[t.len() - 3] == s[s.len() - 2]);
                assert(t[t.len() - 2] == s.last());
                assert(t.last() == p[0]);
                assert(!(t[t.len() - 3] == '<' && t[t.len() - 2] == '!' && t.last() == '>'));
                assert(marker_count(p) == 0);
            }
        } else {
            assert(marker_count(t) == 0);
            assert(marker_count(s) == 0);
            assert(marker_count(p) == 0);
        }
    }
}

/// A string without `<` holds no marker.
pub proof fn lemma_marker_count_no_open(p: Seq<char>)
    requires
        no_open(p),
    ensures
        marker_count(p) == 0,
    decreases p.len(),
{
    if p.len() >= 3 {
        lemma_marker_count_no_open(p.drop_last());
    }
}

/// A string without `!` holds no marker.
pub proof fn lemma_marker_count_no_bang(p: Seq<char>)
    requires
        no_bang(p),
    ensures
        marker_count(p) == 0,
    decreases p.len(),
{
    if p.len() >= 3 {
        lemma_marker_count_no_bang(p.drop_last());
    }
}

/// HTML-escaped text never holds `<`: the escape rewrites it.
pub proof fn lemma_escape_has_no_open(s: Seq<char>, for_attribute: bool)
    ensures
        no_open(spec_escape_html(s, for_attribute)),
    decreases s.len(),
{
    if s.len() > 0 {
        lemma_escape_has_no_open(s.drop_last(), for_attribute);
        let left = spec_escape_html(s.drop_last(), for_attribute);
        let right = escaped_char(s.last(), for_attribute);
        assert(forall|i: int| 0 <= i < right.len() ==> #[trigger] right[i] != '<');
        assert forall|i: int|
            0 <= i < spec_escape_html(s, for_attribute).len() implies #[trigger] spec_escape_html(
            s,
            for_attribute,
        )[i] != '<' by {
            if i < left.len() {
                assert(spec_escape_html(s, for_attribute)[i] == left[i]);
            } else {
                assert(spec_escape_html(s, for_attribute)[i] == right[i - left.len()]);
            }
        }
    }
}

/// The characters JSX treats as whitespace.
pub open spec fn is_jsx_space(c: char) -> bool {
    c == ' ' || c == '\t' || c == '\n' || c == '\r'
}

/// Collapse every whitespace run to a single space, never letting a space
/// open the result.
pub open spec fn collapse_spaces(s: Seq<char>) -> Seq<char>
    decreases s.len(),
{
    if s.len() == 0 {
        Seq::empty()
    } else {
        let p = collapse_spaces(s.drop_last());
        let c = s.last();
        if is_jsx_space(c) {
            if p.len() == 0 || p.last() == ' ' {
                p
            } else {
                p.push(' ')
            }
        } else {
            p.push(c)
        }
    }
}

/// JSX whitespace normalization: collapse whitespace runs to single spaces
/// and trim the edges. A whitespace-only run normalizes to the empty string.
pub open spec fn spec_trim_whitespace(s: Seq<char>) -> Seq<char> {
    let c = collapse_spaces(s);
    if c.len() > 0 && c.last() == ' ' {
        c.drop_last()
    } else {
        c
    }
}

/// Normalize a JSX text run.
pub fn trim_whitespace(s: &str) -> (r: String)
    ensures
        r@ == spec_trim_whitespace(s@),
{
    let n = s.unicode_len();
    let mut out: Vec<char> = Vec::new();
    let mut i: usize = 0;
    while i < n
        invariant
            0 <= i <= n,
            n == s@.len(),
            out@ == collapse_spaces(s@.subrange(0, i as int)),
        decreases n - i,
    {
        let c = s.get_char(i);
        if c == ' ' || c == '\t' || c == '\n' || c == '\r' {
            if out.len() > 0 {
                let last = out[out.len() - 1];
                if last != ' ' {
                    out.push(' ');
                }
            }
        } else {
            out.push(c);
        }
        proof {
            assert(s@.subrange(0, i + 1).drop_last() =~= s@.subrange(0, i as int));
            assert(s@.subrange(0, i + 1).last() == s@[i as int]);
        }
        i = i + 1;
    }
    proof {
        assert(s@.subrange(0, n as int) =~= s@);
    }
    if out.len() > 0 {
        let last = out[out.len() - 1];
        if last == ' ' {
            out.pop();
        }
    }
    chars_to_string(&out)
}

/// A string with every character lowercased.
pub open spec fn lowered(s: Seq<char>) -> Seq<char> {
    s.map_values(|c: char| lowered_char(c))
}

/// The event name an `on…` attribute key denotes: the key with its leading
/// `on:` or `on` stripped, lowercased.
pub open spec fn spec_to_event_name(key: Seq<char>) -> Seq<char> {
    if is_prefix_of(seq!['o', 'n', ':'], key) {
        lowered(key.subrange(3, key.len() as int))
    } else if is_prefix_of(seq!['o', 'n'], key) {
        lowered(key.subrange(2, key.len() as int))
    } else {
        lowered(key)
    }
}

/// Derive the DOM event name from an `on…` attribute key.
pub fn to_event_name(key: &str) -> (r: String)
    ensures
        r@ == spec_to_event_name(key@),
{
    proof {
        reveal_strlit("on:");
        reveal_strlit("on");
        assert("on:"@ =~= seq!['o', 'n', ':']);
        assert("on"@ =~= seq!['o', 'n']);
    }
    let n = key.unicode_len();
    let body: &str = if str_starts_with(key, "on:") {
        key.substring_char(3, n)
    } else if str_starts_with(key, "on") {
        key.substring_char(2, n)
    } else {
        key
    };
    let bn = body.unicode_len();
    let mut out: Vec<char> = Vec::new();
    let mut i: usize = 0;
    while i < bn
        invariant
            0 <= i <= bn,
            bn == body@.len(),
            out@ == lowered(body@).subrange(0, i as int),
        decreases bn - i,
    {
        out.push(to_lower_char(body.get_char(i)));
        proof {
            assert(lowered(body@).subrange(0, i + 1) =~= lowered(body@).subrange(
                0,
                i as int,
            ).push(lowered_char(body@[i as int])));
        }
        i = i + 1;
    }
    proof {
        assert(lowered(body@).subrange(0, bn as int) =~= lowered(body@));
    }
    chars_to_string(&out)
}

/// The character for a decimal digit.
pub open spec fn digit_char(d: nat) -> char {
    if d == 0 {
        '0'
    } else if d == 1 {
        '1'
    } else if d == 2 {
        '2'
    } else if d == 3 {
        '3'
    } else if d == 4 {
        '4'
    } else if d == 5 {
        '5'
    } else if d == 6 {
        '6'
    } else if d == 7 {
        '7'
    } else if d == 8 {
        '8'
    } else {
        '9'
    }
}

/// The decimal rendering of a natural number.
pub open spec fn spec_decimal(n: nat) -> Seq<char>
    decreases n,
{
    if n < 10 {
        seq![digit_char(n)]
    } else {
        spec_decimal(n / 10).push(digit_char(n % 10))
    }
}

/// Decimal renderings are one character or more, two or more from ten up.
pub proof fn lemma_decimal_len(n: nat)
    ensures
        spec_decimal(n).len() >= 1,
        n >= 10 ==> spec_decimal(n).len() >= 2,
    decreases n,
{
    if n >= 10 {
        lemma_decimal_len(n / 10);
    }
}

/// Equal decimal renderings come from equal numbers.
pub proof fn lemma_decimal_injective(a: nat, b: nat)
    requires
        spec_decimal(a) == spec_decimal(b),
    ensures
        a == b,
    decreases a + b,
{
    lemma_decimal_len(a);
    lemma_decimal_len(b);
    if a < 10 && b < 10 {
        assert(spec_decimal(a)[0] == digit_char(a));
        assert(spec_decimal(b)[0] == digit_char(b));
        assert(a == b);
    } else if a < 10 || b < 10 {
        assert(spec_decimal(a).len() == spec_decimal(b).len());
        assert(false);
    } else {
        assert(spec_decimal(a).last() == digit_char(a % 10));
        assert(spec_decimal(b).last() == digit_char(b % 10));
        assert(a % 10 == b % 10);
        assert(spec_decimal(a).drop_last() =~= spec_decimal(a / 10));
        assert(spec_decimal(b).drop_last() =~= spec_decimal(b / 10));
        lemma_decimal_injective(a / 10, b / 10);
    }
}

/// Append the decimal rendering of `n` to `out`.
pub fn push_decimal(n: u64, out: &mut Vec<char>)
    ensures
        final(out)@ == old(out)@ + spec_decimal(n as nat),
    decreases n,
{
    if n >= 10 {
        push_decimal(n / 10, out);
    }
    let d = n % 10;
    let c: char = if d == 0 {
        '0'
    } else if d == 1 {
        '1'
    } else if d == 2 {
        '2'
    } else if d == 3 {
        '3'
    } else if d == 4 {
        '4'
    } else if d == 5 {
        '5'
    } else if d == 6 {
        '6'
    } else if d == 7 {
        '7'
    } else if d == 8 {
        '8'
    } else {
        '9'
    };
    proof {
        assert(c == digit_char((n % 10) as nat));
    }
    out.push(c);
    proof {
        if n < 10 {
            assert(out@ =~= old(out)@ + spec_decimal(n as nat));
        } else {
            assert(out@ =~= old(out)@ + spec_decimal(n as nat));
        }
    }
}

} // verus!
