//! Character-level text handling: splitting on a separator, joining, trimming,
//! lower-casing and decimal numbers.
use vstd::prelude::*;
use vstd::utf8::is_ascii_chars;

verus! {

broadcast use vstd::string::group_string_axioms;

// ---------------------------------------------------------------------------
// Splitting and joining
// ---------------------------------------------------------------------------

/// The pieces of `s` between occurrences of `sep`, read left to right;
/// `n` separators give `n + 1` pieces, empty ones included.
pub open spec fn split_on(s: Seq<char>, sep: char) -> Seq<Seq<char>>
    decreases s.len(),
{
    if s.len() == 0 {
        seq![Seq::empty()]
    } else {
        let prev = split_on(s.drop_last(), sep);
        if s.last() == sep {
            prev.push(Seq::empty())
        } else {
            prev.update(prev.len() - 1, prev.last().push(s.last()))
        }
    }
}

/// The pieces laid end to end with one `sep` between neighbours.
pub open spec fn join_with(parts: Seq<Seq<char>>, sep: char) -> Seq<char>
    decreases parts.len(),
{
    if parts.len() == 0 {
        Seq::empty()
    } else if parts.len() == 1 {
        parts[0]
    } else {
        join_with(parts.drop_last(), sep).push(sep) + parts.last()
    }
}

/// The views of a sequence of strings.
pub open spec fn string_views(v: Seq<String>) -> Seq<Seq<char>> {
    v.map_values(|p: String| p@)
}

/// Appends a character to a `String` (std's `String::push`).
#[verifier::external_body]
pub(crate) fn push_char(s: &mut String, c: char)
    ensures
        final(s)@ == old(s)@.push(c),
{
    s.push(c);
}

/// A split always has at least one piece.
pub proof fn lemma_split_nonempty(s: Seq<char>, sep: char)
    ensures
        split_on(s, sep).len() >= 1,
    decreases s.len(),
{
    if s.len() > 0 {
        lemma_split_nonempty(s.drop_last(), sep);
    }
}

/// Splits `s` on every `sep` (std's `str::split` with a `char` pattern).
pub fn split_by(s: &str, sep: char) -> (parts: Vec<String>)
    ensures
        string_views(parts@) == split_on(s@, sep),
{
    let mut parts: Vec<String> = Vec::new();
    let mut cur = String::new();
    for c in it: s.chars()
        invariant
            it.seq() == s@,
            string_views(parts@).push(cur@) == split_on(it.seq().take(it.index() as int), sep),
    {
        let ghost pre = it.seq().take(it.index() as int);
        let ghost idx = it.index();
        proof {
            lemma_split_nonempty(pre, sep);
        }
        if c == sep {
            parts.push(cur);
            cur = String::new();
        } else {
            push_char(&mut cur, c);
        }
        proof {
            let now = it.seq().take(idx + 1);
            assert(now.drop_last() =~= pre);
        }
    }
    assert(s@.take(s@.len() as int) =~= s@);
    parts.push(cur);
    parts
}

/// Appends the last piece of a split to the joined text of the rest.
proof fn lemma_join_extend_last(parts: Seq<Seq<char>>, sep: char, c: char)
    requires
        parts.len() >= 1,
    ensures
        join_with(parts.update(parts.len() - 1, parts.last().push(c)), sep)
            == join_with(parts, sep).push(c),
{
    let q = parts.update(parts.len() - 1, parts.last().push(c));
    if parts.len() == 1 {
        assert(q[0] == parts[0].push(c));
    } else {
        assert(q.drop_last() =~= parts.drop_last());
        assert(q.last() == parts.last().push(c));
        assert(join_with(q, sep) == join_with(q.drop_last(), sep).push(sep) + q.last());
        assert((join_with(parts.drop_last(), sep).push(sep) + parts.last()).push(c)
            =~= join_with(parts.drop_last(), sep).push(sep) + parts.last().push(c));
    }
}

/// Joining the pieces of a split with the same separator gives the text back.
pub proof fn lemma_join_split(s: Seq<char>, sep: char)
    ensures
        join_with(split_on(s, sep), sep) == s,
    decreases s.len(),
{
    if s.len() == 0 {
        assert(join_with(seq![Seq::<char>::empty()], sep) == Seq::<char>::empty());
    } else {
        let prev = split_on(s.drop_last(), sep);
        lemma_join_split(s.drop_last(), sep);
        lemma_split_nonempty(s.drop_last(), sep);
        if s.last() == sep {
            let q = prev.push(Seq::empty());
            assert(q.drop_last() =~= prev);
            assert(join_with(q, sep) =~= s.drop_last().push(sep) + Seq::<char>::empty());
            assert(s.drop_last().push(sep) + Seq::<char>::empty() =~= s);
        } else {
            lemma_join_extend_last(prev, sep, s.last());
            assert(s.drop_last().push(s.last()) =~= s);
        }
    }
}

/// Splitting text that holds no separator, after a prefix, only grows the last piece.
proof fn lemma_split_append_plain(x: Seq<char>, b: Seq<char>, sep: char)
    requires
        !b.contains(sep),
    ensures
        split_on(x + b, sep) == split_on(x, sep).update(
            split_on(x, sep).len() - 1,
            split_on(x, sep).last() + b,
        ),
    decreases b.len(),
{
    lemma_split_nonempty(x, sep);
    let sx = split_on(x, sep);
    if b.len() == 0 {
        assert(x + b =~= x);
        assert(sx.last() + b =~= sx.last());
        assert(sx.update(sx.len() - 1, sx.last()) =~= sx);
    } else {
        let b0 = b.drop_last();
        assert(!b0.contains(sep)) by {
            if b0.contains(sep) {
                let i = choose|i: int| 0 <= i < b0.len() && b0[i] == sep;
                assert(b[i] == sep);
            }
        }
        lemma_split_append_plain(x, b0, sep);
        assert(b.last() != sep) by {
            assert(b[b.len() - 1] == b.last());
        }
        assert((x + b).drop_last() =~= x + b0);
        assert((x + b).last() == b.last());
        let prev = split_on(x + b0, sep);
        assert(prev =~= sx.update(sx.len() - 1, sx.last() + b0));
        assert(split_on(x + b, sep) == prev.update(prev.len() - 1, prev.last().push(b.last())));
        assert((sx.last() + b0).push(b.last()) =~= sx.last() + b);
        assert(prev.update(prev.len() - 1, prev.last().push(b.last())) =~= sx.update(
            sx.len() - 1,
            sx.last() + b,
        ));
    }
}

/// Splitting pieces joined by a separator that none of them holds gives the pieces back.
pub proof fn lemma_split_join(parts: Seq<Seq<char>>, sep: char)
    requires
        parts.len() >= 1,
        forall|i: int| 0 <= i < parts.len() ==> !(#[trigger] parts[i]).contains(sep),
    ensures
        split_on(join_with(parts, sep), sep) == parts,
    decreases parts.len(),
{
    if parts.len() == 1 {
        lemma_split_append_plain(Seq::empty(), parts[0], sep);
        assert(Seq::<char>::empty() + parts[0] =~= parts[0]);
        assert(seq![Seq::<char>::empty()].update(0, Seq::<char>::empty() + parts[0]) =~= parts);
    } else {
        let init = parts.drop_last();
        assert forall|i: int| 0 <= i < init.len() implies !(#[trigger] init[i]).contains(sep) by {
            assert(init[i] == parts[i]);
        }
        lemma_split_join(init, sep);
        let x = join_with(init, sep).push(sep);
        assert(!parts.last().contains(sep)) by {
            assert(parts[parts.len() - 1] == parts.last());
        }
        lemma_split_append_plain(x, parts.last(), sep);
        assert(x.drop_last() =~= join_with(init, sep));
        assert(split_on(x, sep) == init.push(Seq::empty()));
        assert(Seq::<char>::empty() + parts.last() =~= parts.last());
        assert(init.push(Seq::empty()).update(init.len() as int, parts.last()) =~= parts);
    }
}

/// Mapping the characters by a function that sends the separator, and only the
/// separator, to itself maps each piece of the split.
pub proof fn lemma_split_map(s: Seq<char>, sep: char, f: spec_fn(char) -> char)
    requires
        forall|c: char| (#[trigger] f(c) == sep) == (c == sep),
    ensures
        split_on(s.map_values(f), sep) == split_on(s, sep).map_values(|p: Seq<char>| p.map_values(f)),
    decreases s.len(),
{
    let t = s.map_values(f);
    if s.len() == 0 {
        assert(seq![Seq::<char>::empty()][0].map_values(f) =~= Seq::<char>::empty());
        assert(split_on(s, sep).map_values(|p: Seq<char>| p.map_values(f)) =~~= split_on(t, sep));
    } else {
        let ps = split_on(s.drop_last(), sep);
        assert(t.drop_last() =~= s.drop_last().map_values(f));
        assert(t.last() == f(s.last()));
        lemma_split_map(s.drop_last(), sep, f);
        lemma_split_nonempty(s.drop_last(), sep);
        let pt = split_on(t.drop_last(), sep);
        assert(pt == ps.map_values(|p: Seq<char>| p.map_values(f)));
        let lhs = split_on(t, sep);
        let rhs = split_on(s, sep).map_values(|p: Seq<char>| p.map_values(f));
        if s.last() == sep {
            assert(f(s.last()) == sep);
            assert(lhs == pt.push(Seq::empty()));
            assert(Seq::<char>::empty().map_values(f) =~= Seq::<char>::empty());
            assert(lhs =~~= rhs);
        } else {
            assert(f(s.last()) != sep);
            assert(lhs == pt.update(pt.len() - 1, pt.last().push(f(s.last()))));
            assert(ps.last().push(s.last()).map_values(f) =~= ps.last().map_values(f).push(f(s.last())));
            assert(pt.last() == ps.last().map_values(f));
            assert(lhs =~~= rhs);
        }
    }
}

/// Every piece of the split of an ASCII text is ASCII.
pub proof fn lemma_split_ascii(s: Seq<char>, sep: char)
    requires
        is_ascii_chars(s),
    ensures
        forall|i: int| 0 <= i < split_on(s, sep).len() ==> is_ascii_chars(#[trigger] split_on(s, sep)[i]),
    decreases s.len(),
{
    if s.len() > 0 {
        let init = s.drop_last();
        assert(is_ascii_chars(init)) by {
            assert forall|j: int| 0 <= j < init.len() implies '\0' <= #[trigger] init[j] <= '\u{7f}' by {
                assert(init[j] == s[j]);
            }
        }
        lemma_split_ascii(init, sep);
        lemma_split_nonempty(init, sep);
        let ps = split_on(init, sep);
        assert('\0' <= s[s.len() - 1] <= '\u{7f}');
        if s.last() != sep {
            let q = ps.last().push(s.last());
            assert(is_ascii_chars(ps[ps.len() - 1]));
            assert forall|j: int| 0 <= j < q.len() implies '\0' <= #[trigger] q[j] <= '\u{7f}' by {
                if j < q.len() - 1 {
                    assert(q[j] == ps[ps.len() - 1][j]);
                }
            }
        }
    }
}

// ---------------------------------------------------------------------------
// Trimming and lower-casing
// ---------------------------------------------------------------------------

/// Whether a character has the Unicode `White_Space` property: U+0009 to U+000D,
/// U+0020, U+0085, U+00A0, U+1680, U+2000 to U+200A, U+2028, U+2029, U+202F,
/// U+205F and U+3000.
pub open spec fn white_space(c: char) -> bool {
    ||| '\u{9}' <= c <= '\u{d}'
    ||| c == ' '
    ||| c == '\u{85}'
    ||| c == '\u{a0}'
    ||| c == '\u{1680}'
    ||| '\u{2000}' <= c <= '\u{200a}'
    ||| c == '\u{2028}'
    ||| c == '\u{2029}'
    ||| c == '\u{202f}'
    ||| c == '\u{205f}'
    ||| c == '\u{3000}'
}

/// std's `char::is_whitespace`: true exactly for the characters with the
/// Unicode `White_Space` property.
pub assume_specification[ char::is_whitespace ](c: char) -> (b: bool)
    ensures
        b == white_space(c),
;

/// The text without its leading white space.
pub open spec fn trim_start(s: Seq<char>) -> Seq<char>
    decreases s.len(),
{
    if s.len() > 0 && white_space(s[0]) {
        trim_start(s.drop_first())
    } else {
        s
    }
}

/// The text without its trailing white space.
pub open spec fn trim_end(s: Seq<char>) -> Seq<char>
    decreases s.len(),
{
    if s.len() > 0 && white_space(s.last()) {
        trim_end(s.drop_last())
    } else {
        s
    }
}

/// The text without leading and trailing white space (std's `str::trim`).
pub open spec fn trimmed(s: Seq<char>) -> Seq<char> {
    trim_end(trim_start(s))
}

/// The Unicode lower-case form of a text that is not all ASCII, as std's
/// `str::to_lowercase` computes it.
pub uninterp spec fn unicode_lowercase(s: Seq<char>) -> Seq<char>;

/// The ASCII lower-case form of a character: `A`..`Z` become `a`..`z`, every other
/// character stays.
pub open spec fn ascii_lower(c: char) -> char {
    if 'A' <= c <= 'Z' {
        ((c as int) + 32) as char
    } else {
        c
    }
}

/// The ASCII upper-case form of a character: `a`..`z` become `A`..`Z`, every other
/// character stays.
pub open spec fn ascii_upper(c: char) -> char {
    if 'a' <= c <= 'z' {
        ((c as int) - 32) as char
    } else {
        c
    }
}

/// ASCII case changes keep a character ASCII, keep `,` and only `,` as `,`, and
/// lower-casing after either gives the character's lower-case form.
pub proof fn lemma_ascii_case_char(c: char)
    requires
        '\0' <= c <= '\u{7f}',
    ensures
        '\0' <= ascii_upper(c) <= '\u{7f}',
        '\0' <= ascii_lower(c) <= '\u{7f}',
        ascii_lower(ascii_upper(c)) == ascii_lower(c),
        ascii_lower(ascii_lower(c)) == ascii_lower(c),
{
}

/// ASCII case changes send `,`, and only `,`, to `,`.
pub proof fn lemma_ascii_case_comma(c: char)
    ensures
        (ascii_upper(c) == ',') == (c == ','),
        (ascii_lower(c) == ',') == (c == ','),
{
}

/// The lower-case form of a text (std's `str::to_lowercase`): on all-ASCII text,
/// each character's ASCII lower-case form; on other text, Unicode's.
pub open spec fn lowercase(s: Seq<char>) -> Seq<char> {
    if is_ascii_chars(s) {
        s.map_values(|c: char| ascii_lower(c))
    } else {
        unicode_lowercase(s)
    }
}

/// std's `str::to_lowercase`: on all-ASCII text it maps `A`..`Z` to `a`..`z` and
/// leaves every other character alone; on any other text its result is named by
/// `unicode_lowercase` and left to Unicode's tables.
pub assume_specification[ str::to_lowercase ](s: &str) -> (r: String)
    ensures
        is_ascii_chars(s@) ==> r@ == s@.map_values(|c: char| ascii_lower(c)),
        !is_ascii_chars(s@) ==> r@ == unicode_lowercase(s@),
;

proof fn lemma_trim_start_at(s: Seq<char>, a: int)
    requires
        0 <= a <= s.len(),
        forall|j: int| 0 <= j < a ==> white_space(#[trigger] s[j]),
        a == s.len() || !white_space(s[a]),
    ensures
        trim_start(s) == s.subrange(a, s.len() as int),
    decreases a,
{
    if a == 0 {
        assert(s.subrange(0, s.len() as int) =~= s);
    } else {
        let t = s.drop_first();
        assert(white_space(s[0]));
        assert forall|j: int| 0 <= j < a - 1 implies white_space(#[trigger] t[j]) by {
            assert(t[j] == s[j + 1]);
        }
        if a - 1 < t.len() {
            assert(t[a - 1] == s[a]);
        }
        lemma_trim_start_at(t, a - 1);
        assert(t.subrange(a - 1, t.len() as int) =~= s.subrange(a, s.len() as int));
    }
}

proof fn lemma_trim_end_at(s: Seq<char>, b: int)
    requires
        0 <= b <= s.len(),
        forall|j: int| b <= j < s.len() ==> white_space(#[trigger] s[j]),
        b == 0 || !white_space(s[b - 1]),
    ensures
        trim_end(s) == s.subrange(0, b),
    decreases s.len() - b,
{
    if b == s.len() {
        assert(s.subrange(0, b) =~= s);
    } else {
        let t = s.drop_last();
        assert(white_space(s[s.len() - 1]));
        assert forall|j: int| b <= j < t.len() implies white_space(#[trigger] t[j]) by {
            assert(t[j] == s[j]);
        }
        if b > 0 {
            assert(t[b - 1] == s[b - 1]);
        }
        lemma_trim_end_at(t, b);
        assert(t.subrange(0, b) =~= s.subrange(0, b));
    }
}

/// The characters of a text, in order.
pub fn chars_of(s: &str) -> (v: Vec<char>)
    ensures
        v@ == s@,
{
    let mut v: Vec<char> = Vec::new();
    for c in it: s.chars()
        invariant
            it.seq() == s@,
            v@ == it.seq().take(it.index() as int),
    {
        let ghost idx = it.index();
        v.push(c);
        proof {
            assert(it.seq().take(idx + 1) =~= it.seq().take(idx as int).push(c));
        }
    }
    assert(s@.take(s@.len() as int) =~= s@);
    v
}

/// A `String` holding `v[from..to]`.
fn string_from(v: &Vec<char>, from: usize, to: usize) -> (r: String)
    requires
        from <= to <= v.len(),
    ensures
        r@ == v@.subrange(from as int, to as int),
{
    let mut r = String::new();
    let mut i = from;
    while i < to
        invariant
            from <= i <= to <= v.len(),
            r@ == v@.subrange(from as int, i as int),
        decreases to - i,
    {
        push_char(&mut r, v[i]);
        assert(v@.subrange(from as int, i + 1) =~= v@.subrange(from as int, i as int).push(v@[i as int]));
        i += 1;
    }
    r
}

/// The text without leading and trailing white space (std's `str::trim`).
pub fn trim(s: &str) -> (r: String)
    ensures
        r@ == trimmed(s@),
{
    let v = chars_of(s);
    let n = v.len();
    let mut a: usize = 0;
    while a < n && v[a].is_whitespace()
        invariant
            a <= n == v@.len(),
            forall|j: int| 0 <= j < a ==> white_space(#[trigger] v@[j]),
        decreases n - a,
    {
        a += 1;
    }
    proof {
        lemma_trim_start_at(s@, a as int);
    }
    let mut b: usize = n;
    while b > a && v[b - 1].is_whitespace()
        invariant
            a <= b <= n == v@.len(),
            forall|j: int| b <= j < n ==> white_space(#[trigger] v@[j]),
        decreases b - a,
    {
        b -= 1;
    }
    proof {
        let t = s@.subrange(a as int, n as int);
        assert forall|j: int| b - a <= j < t.len() implies white_space(#[trigger] t[j]) by {
            assert(t[j] == v@[j + a]);
        }
        if b > a {
            assert(t[b - a - 1] == v@[b - 1]);
        }
        lemma_trim_end_at(t, b - a);
        assert(t.subrange(0, b - a) =~= v@.subrange(a as int, b as int));
    }
    string_from(&v, a, b)
}

// ---------------------------------------------------------------------------
// Decimal numbers
// ---------------------------------------------------------------------------

/// The decimal digit character for `d` (`d < 10`).
pub open spec fn digit_char(d: nat) -> char {
    (d + 48) as char
}

/// The decimal form of `n`, without leading zeros (`0` is "0").
pub open spec fn decimal(n: nat) -> Seq<char>
    decreases n,
{
    if n < 10 {
        seq![digit_char(n)]
    } else {
        decimal(n / 10).push(digit_char(n % 10))
    }
}

/// Every character of a decimal form is a digit.
pub proof fn lemma_decimal_digits(n: nat)
    ensures
        decimal(n).len() >= 1,
        forall|i: int| 0 <= i < decimal(n).len() ==> '0' <= #[trigger] decimal(n)[i] <= '9',
    decreases n,
{
    if n >= 10 {
        lemma_decimal_digits(n / 10);
    }
}

/// Appends the decimal form of `n` (what `u16`'s `Display` writes).
pub fn push_decimal(out: &mut String, n: u16)
    ensures
        final(out)@ == old(out)@ + decimal(n as nat),
    decreases n,
{
    if n >= 10 {
        push_decimal(out, n / 10);
    }
    let d: u8 = (n % 10) as u8;
    let c: char = (d + 48u8) as char;
    push_char(out, c);
    assert(decimal(n as nat) =~= if n < 10 {
        seq![digit_char(n as nat)]
    } else {
        decimal((n / 10) as nat).push(digit_char((n % 10) as nat))
    });
}

} // verus!
