//! Text operations over characters: trimming, splitting into lines and words,
//! joining, padding and decimal numbers.
use vstd::prelude::*;
use vstd::string::StringExecFns;

verus! {

/// `String::push`: the character is appended to the end of the string.
pub assume_specification[ String::push ](s: &mut String, ch: char)
    ensures
        final(s)@ == old(s)@.push(ch),
;

// ---------- what the operations mean ----------

/// The characters with the Unicode `White_Space` property.
pub open spec fn is_white(c: char) -> bool {
    ||| '\u{9}' <= c <= '\u{d}'
    ||| c == ' '
    ||| c == '\u{85}'
    ||| c == '\u{a0}'
    ||| c == '\u{1680}'
    ||| '\u{2000}' <= c <= '\u{200a}'
    ||| c == '\u{2028}'
    ||| c == '\u{2029}'
    ||| c == '\u{202f}'
    ||| c == '\u{205f}'
    ||| c == '\u{3000}'
}

/// `s` without its leading white space.
pub open spec fn trimmed_start(s: Seq<char>) -> Seq<char>
    decreases s.len(),
{
    if s.len() > 0 && is_white(s[0]) {
        trimmed_start(s.drop_first())
    } else {
        s
    }
}

/// `s` without its trailing white space.
pub open spec fn trimmed_end(s: Seq<char>) -> Seq<char>
    decreases s.len(),
{
    if s.len() > 0 && is_white(s.last()) {
        trimmed_end(s.drop_last())
    } else {
        s
    }
}

/// `s` without leading and trailing white space.
pub open spec fn trimmed(s: Seq<char>) -> Seq<char> {
    trimmed_end(trimmed_start(s))
}

/// True when `s` has nothing but white space.
pub open spec fn is_blank(s: Seq<char>) -> bool {
    forall|i: int| 0 <= i < s.len() ==> is_white(#[trigger] s[i])
}

/// Where the first white-space character of `s` stands; the length of `s` if
/// there is none.
pub open spec fn word_end(s: Seq<char>) -> nat
    decreases s.len(),
{
    if s.len() == 0 || is_white(s[0]) {
        0
    } else {
        1 + word_end(s.drop_first())
    }
}

/// The characters of `s` up to the first white space.
pub open spec fn first_word(s: Seq<char>) -> Seq<char> {
    s.take(word_end(s) as int)
}

/// One past the last white-space character of `s`; 0 if there is none.
pub open spec fn last_word_start(s: Seq<char>) -> nat
    decreases s.len(),
{
    if s.len() == 0 {
        0
    } else if is_white(s.last()) {
        s.len()
    } else {
        last_word_start(s.drop_last())
    }
}

/// Where the first newline of `s` stands; the length of `s` if there is none.
pub open spec fn newline_at(s: Seq<char>) -> nat
    decreases s.len(),
{
    if s.len() == 0 || s[0] == '\n' {
        0
    } else {
        1 + newline_at(s.drop_first())
    }
}

/// The pieces of `s` between newlines: one more than there are newlines.
pub open spec fn paragraphs(s: Seq<char>) -> Seq<Seq<char>>
    decreases s.len(),
{
    let k = newline_at(s) as int;
    if k >= s.len() {
        seq![s]
    } else {
        seq![s.take(k)] + paragraphs(s.skip(k + 1))
    }
}

/// `s` without a carriage return at its end.
pub open spec fn without_return(s: Seq<char>) -> Seq<char> {
    if s.len() > 0 && s.last() == '\r' {
        s.drop_last()
    } else {
        s
    }
}

/// The lines of `s`: each ends in `\n` or `\r\n`, which is not part of it, and
/// the line end of the last one is optional.
pub open spec fn lines_of(s: Seq<char>) -> Seq<Seq<char>>
    decreases s.len(),
{
    let k = newline_at(s) as int;
    if s.len() == 0 {
        seq![]
    } else if k >= s.len() {
        seq![s]
    } else {
        seq![without_return(s.take(k))] + lines_of(s.skip(k + 1))
    }
}

/// `parts` one after the other, with `sep` between neighbours.
pub open spec fn joined(parts: Seq<Seq<char>>, sep: Seq<char>) -> Seq<char>
    decreases parts.len(),
{
    if parts.len() == 0 {
        seq![]
    } else if parts.len() == 1 {
        parts[0]
    } else {
        joined(parts.drop_last(), sep) + sep + parts.last()
    }
}

/// A decimal digit.
pub open spec fn digit(d: nat) -> char {
    if d == 0 { '0' } else if d == 1 { '1' } else if d == 2 { '2' } else if d == 3 { '3' }
    else if d == 4 { '4' } else if d == 5 { '5' } else if d == 6 { '6' } else if d == 7 { '7' }
    else if d == 8 { '8' } else { '9' }
}

/// `n` in decimal, without leading zeros.
pub open spec fn decimal(n: nat) -> Seq<char>
    decreases n,
{
    if n < 10 {
        seq![digit(n)]
    } else {
        decimal(n / 10).push(digit(n % 10))
    }
}

/// `n` spaces.
pub open spec fn spaces(n: nat) -> Seq<char> {
    Seq::new(n, |i: int| ' ')
}

/// `s`, filled up with spaces on the right to at least `n` characters.
pub open spec fn padded(s: Seq<char>, n: nat) -> Seq<char> {
    if s.len() < n {
        s + spaces((n - s.len()) as nat)
    } else {
        s
    }
}

// ---------- facts about them ----------

/// `word_end` is the one index that its description fits.
pub proof fn lemma_word_end(s: Seq<char>, k: int)
    requires
        0 <= k <= s.len(),
        forall|j: int| 0 <= j < k ==> !is_white(#[trigger] s[j]),
        k < s.len() ==> is_white(s[k]),
    ensures
        word_end(s) == k,
    decreases s.len(),
{
    if k > 0 {
        assert forall|j: int| 0 <= j < k - 1 implies !is_white(#[trigger] s.drop_first()[j]) by {
            assert(s.drop_first()[j] == s[j + 1]);
        }
        lemma_word_end(s.drop_first(), k - 1);
    }
}

/// `newline_at` is the one index that its description fits.
pub proof fn lemma_newline_at(s: Seq<char>, k: int)
    requires
        0 <= k <= s.len(),
        forall|j: int| 0 <= j < k ==> #[trigger] s[j] != '\n',
        k < s.len() ==> s[k] == '\n',
    ensures
        newline_at(s) == k,
    decreases s.len(),
{
    if k > 0 {
        assert forall|j: int| 0 <= j < k - 1 implies #[trigger] s.drop_first()[j] != '\n' by {
            assert(s.drop_first()[j] == s[j + 1]);
        }
        lemma_newline_at(s.drop_first(), k - 1);
    }
}

/// A newline stands where `newline_at` says, and none before it.
pub proof fn lemma_newline_is_found(s: Seq<char>)
    ensures
        newline_at(s) <= s.len(),
        newline_at(s) < s.len() ==> s[newline_at(s) as int] == '\n',
        forall|j: int| 0 <= j < newline_at(s) ==> #[trigger] s[j] != '\n',
    decreases s.len(),
{
    if s.len() > 0 && s[0] != '\n' {
        let rest = s.drop_first();
        lemma_newline_is_found(rest);
        assert forall|j: int| 0 <= j < newline_at(s) implies #[trigger] s[j] != '\n' by {
            if j > 0 {
                assert(s[j] == rest[j - 1]);
            }
        }
    }
}

/// Nothing is left of a text by trimming exactly when it is blank.
pub proof fn lemma_trimmed_blank(s: Seq<char>)
    ensures
        trimmed(s).len() == 0 <==> is_blank(s),
{
    lemma_trimmed_start_blank(s);
    lemma_trimmed_end_blank(trimmed_start(s));
}

proof fn lemma_trimmed_start_blank(s: Seq<char>)
    ensures
        is_blank(trimmed_start(s)) <==> is_blank(s),
    decreases s.len(),
{
    if s.len() > 0 && is_white(s[0]) {
        let rest = s.drop_first();
        lemma_trimmed_start_blank(rest);
        assert(is_blank(s) <==> is_blank(rest)) by {
            if is_blank(rest) {
                assert forall|i: int| 0 <= i < s.len() implies is_white(#[trigger] s[i]) by {
                    if i > 0 {
                        assert(is_white(rest[i - 1]));
                    }
                }
            }
            if is_blank(s) {
                assert forall|i: int| 0 <= i < rest.len() implies is_white(#[trigger] rest[i]) by {
                    assert(is_white(s[i + 1]));
                }
            }
        }
    }
}

proof fn lemma_trimmed_end_blank(s: Seq<char>)
    ensures
        trimmed_end(s).len() == 0 <==> is_blank(s),
    decreases s.len(),
{
    if s.len() > 0 {
        if is_white(s.last()) {
            let rest = s.drop_last();
            lemma_trimmed_end_blank(rest);
            assert(is_blank(s) <==> is_blank(rest)) by {
                if is_blank(rest) {
                    assert forall|i: int| 0 <= i < s.len() implies is_white(#[trigger] s[i]) by {
                        if i < rest.len() {
                            assert(is_white(rest[i]));
                        }
                    }
                }
                if is_blank(s) {
                    assert forall|i: int| 0 <= i < rest.len() implies is_white(
                        #[trigger] rest[i],
                    ) by {
                        assert(is_white(s[i]));
                    }
                }
            }
        } else {
            assert(!is_white(s[s.len() - 1]));
        }
    }
}

// ---------- what holds of every text ----------

/// Trimming the front takes off white space and nothing else, as far as there is any.
/// The result says how much.
pub proof fn trimming_the_front(s: Seq<char>) -> (i: int)
    ensures
        0 <= i <= s.len(),
        trimmed_start(s) == s.skip(i),
        forall|k: int| 0 <= k < i ==> is_white(#[trigger] s[k]),
        i < s.len() ==> !is_white(s[i]),
    decreases s.len(),
{
    if s.len() > 0 && is_white(s[0]) {
        let rest = s.drop_first();
        let i = trimming_the_front(rest);
        assert(rest.skip(i) =~= s.skip(i + 1));
        assert forall|k: int| 0 <= k < i + 1 implies is_white(#[trigger] s[k]) by {
            if k > 0 {
                assert(is_white(rest[k - 1]));
            }
        }
        if i < rest.len() {
            assert(rest[i] == s[i + 1]);
        }
        i + 1
    } else {
        assert(s.skip(0) =~= s);
        0
    }
}

/// Trimming the end takes off white space and nothing else, as far as there is any. The
/// result says how much is left.
pub proof fn trimming_the_end(s: Seq<char>) -> (j: int)
    ensures
        0 <= j <= s.len(),
        trimmed_end(s) == s.take(j),
        forall|k: int| j <= k < s.len() ==> is_white(#[trigger] s[k]),
        j > 0 ==> !is_white(s[j - 1]),
    decreases s.len(),
{
    if s.len() > 0 && is_white(s.last()) {
        let rest = s.drop_last();
        let j = trimming_the_end(rest);
        assert(rest.take(j) =~= s.take(j));
        assert forall|k: int| j <= k < s.len() implies is_white(#[trigger] s[k]) by {
            if k < rest.len() {
                assert(is_white(rest[k]));
            }
        }
        j
    } else {
        assert(s.take(s.len() as int) =~= s);
        s.len() as int
    }
}

/// Trimming keeps one part of a text as it is: what is before and behind that part is
/// white space, and the part neither begins nor ends with any.
pub proof fn trimming_takes_white_space_only(s: Seq<char>) -> (r: (int, int))
    ensures
        0 <= r.0 <= r.1 <= s.len(),
        trimmed(s) == s.subrange(r.0, r.1),
        forall|k: int| 0 <= k < r.0 || r.1 <= k < s.len() ==> is_white(#[trigger] s[k]),
        r.0 < r.1 ==> !is_white(s[r.0]) && !is_white(s[r.1 - 1]),
{
    let i = trimming_the_front(s);
    let rest = s.skip(i);
    let j = trimming_the_end(rest);
    assert(rest.take(j) =~= s.subrange(i, i + j));
    assert forall|k: int| 0 <= k < i || i + j <= k < s.len() implies is_white(#[trigger] s[k]) by {
        if k >= i + j {
            assert(is_white(rest[k - i]));
        }
    }
    if j > 0 {
        assert(rest[0] == s[i]);
        assert(rest[j - 1] == s[i + j - 1]);
        if is_white(s[i]) {
            assert(i < s.len());
        }
    }
    (i, i + j)
}

/// The first word has no white space in it, and ends at white space or with the text.
pub proof fn the_first_word_ends_at_white_space(s: Seq<char>)
    ensures
        word_end(s) <= s.len(),
        first_word(s) + s.skip(word_end(s) as int) == s,
        forall|k: int| 0 <= k < first_word(s).len() ==> !is_white(#[trigger] first_word(s)[k]),
        first_word(s).len() < s.len() ==> is_white(s[first_word(s).len() as int]),
    decreases s.len(),
{
    if s.len() > 0 && !is_white(s[0]) {
        let rest = s.drop_first();
        the_first_word_ends_at_white_space(rest);
        let k = word_end(rest) as int;
        assert forall|j: int| 0 <= j < first_word(s).len() implies !is_white(
            #[trigger] first_word(s)[j],
        ) by {
            if j > 0 {
                assert(first_word(rest)[j - 1] == first_word(s)[j]);
            }
        }
        if k < rest.len() {
            assert(rest[k] == s[k + 1]);
        }
    }
    assert(first_word(s) + s.skip(word_end(s) as int) =~= s);
}

/// The last word has no white space in it, and white space stands before it, or nothing.
pub proof fn the_last_word_begins_behind_white_space(s: Seq<char>)
    ensures
        last_word_start(s) <= s.len(),
        forall|k: int| last_word_start(s) <= k < s.len() ==> !is_white(#[trigger] s[k]),
        last_word_start(s) > 0 ==> is_white(s[last_word_start(s) - 1]),
    decreases s.len(),
{
    if s.len() > 0 && !is_white(s.last()) {
        let rest = s.drop_last();
        the_last_word_begins_behind_white_space(rest);
        assert forall|k: int| last_word_start(s) <= k < s.len() implies !is_white(
            #[trigger] s[k],
        ) by {
            if k < rest.len() {
                assert(rest[k] == s[k]);
            }
        }
    }
}

/// Joining puts the separator between neighbours, and nowhere else.
pub proof fn joining_separates_neighbours(parts: Seq<Seq<char>>, last: Seq<char>, sep: Seq<char>)
    ensures
        joined(parts.push(last), sep) == (if parts.len() == 0 {
            last
        } else {
            joined(parts, sep) + sep + last
        }),
        joined(seq![], sep).len() == 0,
{
    assert(parts.push(last).drop_last() =~= parts);
}

proof fn joining_from_the_front(first: Seq<char>, parts: Seq<Seq<char>>, sep: Seq<char>)
    requires
        parts.len() > 0,
    ensures
        joined(seq![first] + parts, sep) == first + sep + joined(parts, sep),
    decreases parts.len(),
{
    let all = seq![first] + parts;
    let rest = parts.drop_last();
    assert(all.drop_last() =~= seq![first] + rest);
    assert(all.last() == parts.last());
    if rest.len() > 0 {
        joining_from_the_front(first, rest, sep);
        assert(first + sep + joined(rest, sep) + sep + parts.last() =~= first + sep + (joined(
            rest,
            sep,
        ) + sep + parts.last()));
        assert(joined(all, sep) == joined(all.drop_last(), sep) + sep + parts.last());
    } else {
        let one = all.drop_last();
        assert(one.len() == 1 && one[0] == first);
        assert(joined(one, sep) == first);
        assert(joined(parts, sep) == parts.last());
        assert(joined(all, sep) == joined(one, sep) + sep + parts.last());
    }
}

/// Two lists of parts are joined one behind the other.
pub proof fn joining_adds_up(a: Seq<Seq<char>>, b: Seq<Seq<char>>, sep: Seq<char>)
    requires
        a.len() > 0,
        b.len() > 0,
    ensures
        joined(a + b, sep) == joined(a, sep) + sep + joined(b, sep),
    decreases b.len(),
{
    let rest = b.drop_last();
    assert((a + b).drop_last() =~= a + rest);
    assert((a + b).last() == b.last());
    if rest.len() == 0 {
        assert(a + rest =~= a);
        assert(joined(b, sep) == b.last());
    } else {
        joining_adds_up(a, rest, sep);
        assert(joined(a, sep) + sep + joined(rest, sep) + sep + b.last() =~= joined(a, sep) + sep
            + (joined(rest, sep) + sep + b.last()));
    }
    assert(joined(a + b, sep) == joined(a + rest, sep) + sep + b.last());
}

/// Splitting at newlines loses nothing: no piece has a newline, and joined by newlines
/// the pieces are the text.
pub proof fn paragraphs_are_what_newlines_separate(s: Seq<char>)
    ensures
        paragraphs(s).len() > 0,
        forall|i: int, j: int|
            0 <= i < paragraphs(s).len() && 0 <= j < paragraphs(s)[i].len()
                ==> #[trigger] paragraphs(s)[i][j] != '\n',
        joined(paragraphs(s), seq!['\n']) == s,
    decreases s.len(),
{
    let sep = seq!['\n'];
    let ps = paragraphs(s);
    lemma_newline_is_found(s);
    let k = newline_at(s) as int;
    if k < s.len() {
        let rest = s.skip(k + 1);
        let below = paragraphs(rest);
        paragraphs_are_what_newlines_separate(rest);
        joining_from_the_front(s.take(k), below, sep);
        assert(s.take(k) + sep + rest =~= s);
        assert forall|i: int, j: int| 0 <= i < ps.len() && 0 <= j < ps[i].len() implies (
        #[trigger] ps[i][j]) != '\n' by {
            if i == 0 {
                assert(ps[i][j] == s[j]);
            } else {
                assert(ps[i] == below[i - 1]);
                assert(below[i - 1][j] != '\n');
            }
        }
    }
}

/// The lines of a text are what newlines separate, without the carriage return before
/// each newline; a newline at the very end begins no line of its own.
pub proof fn lines_are_what_newlines_end(s: Seq<char>)
    ensures
        ({
            let ps = paragraphs(s);
            let lines = lines_of(s);
            &&& ps.len() > 0
            &&& lines.len() == (if ps.last().len() == 0 { ps.len() - 1 } else { ps.len() as int })
            &&& forall|i: int|
                0 <= i < lines.len() ==> #[trigger] lines[i] == (if i < ps.len() - 1 && ps[i].len()
                    > 0 && ps[i].last() == '\r' {
                    ps[i].drop_last()
                } else {
                    ps[i]
                })
        }),
    decreases s.len(),
{
    let k = newline_at(s) as int;
    if s.len() > 0 && k < s.len() {
        let rest = s.skip(k + 1);
        lines_are_what_newlines_end(rest);
        let ps = paragraphs(s);
        let below = paragraphs(rest);
        let lines = lines_of(s);
        assert(ps.last() == below.last());
        assert forall|i: int| 0 <= i < lines.len() implies #[trigger] lines[i] == (if i < ps.len()
            - 1 && ps[i].len() > 0 && ps[i].last() == '\r' {
            ps[i].drop_last()
        } else {
            ps[i]
        }) by {
            if i > 0 {
                assert(lines[i] == lines_of(rest)[i - 1]);
                assert(ps[i] == below[i - 1]);
            }
        }
    }
}

/// The number that a text of digits stands for.
pub open spec fn number_value(s: Seq<char>) -> int
    decreases s.len(),
{
    if s.len() == 0 {
        0
    } else {
        10 * number_value(s.drop_last()) + (s.last() as int - '0' as int)
    }
}

/// A number in decimal is made of digits, stands for that number, and has no zero in
/// front.
pub proof fn decimals_stand_for_their_numbers(n: nat)
    ensures
        decimal(n).len() > 0,
        forall|i: int| 0 <= i < decimal(n).len() ==> '0' <= #[trigger] decimal(n)[i] <= '9',
        number_value(decimal(n)) == n,
        n > 0 ==> decimal(n)[0] != '0',
    decreases n,
{
    if n < 10 {
        let one = seq![digit(n)];
        assert(one.drop_last() =~= seq![]);
        assert(number_value(one.drop_last()) == 0);
    } else {
        decimals_stand_for_their_numbers(n / 10);
        assert(decimal(n).drop_last() =~= decimal(n / 10));
    }
}

/// Padding keeps the text and puts spaces behind it, up to the length that is asked for.
pub proof fn padding_adds_spaces_only(s: Seq<char>, n: nat)
    ensures
        padded(s, n).len() == (if s.len() < n { n } else { s.len() }),
        s.is_prefix_of(padded(s, n)),
        forall|i: int| s.len() <= i < padded(s, n).len() ==> #[trigger] padded(s, n)[i] == ' ',
{
    assert(padded(s, n).take(s.len() as int) =~= s);
}

// ---------- the operations ----------

/// True when `c` has the Unicode `White_Space` property.
pub fn is_whitespace(c: char) -> (r: bool)
    ensures
        r == is_white(c),
{
    ('\u{9}' <= c && c <= '\u{d}') || c == ' ' || c == '\u{85}' || c == '\u{a0}' || c == '\u{1680}'
        || ('\u{2000}' <= c && c <= '\u{200a}') || c == '\u{2028}' || c == '\u{2029}' || c
        == '\u{202f}' || c == '\u{205f}' || c == '\u{3000}'
}

/// The characters of a string, in order.
pub fn chars_of(s: &str) -> (r: Vec<char>)
    ensures
        r@ == s@,
{
    let mut r: Vec<char> = Vec::new();
    for c in it: s.chars()
        invariant
            r@ == it.seq().take(it.index()),
            it.seq() == s@,
    {
        r.push(c);
    }
    r
}

/// The string made of the characters `v[from..to]`.
pub fn string_of(v: &Vec<char>, from: usize, to: usize) -> (r: String)
    requires
        from <= to <= v@.len(),
    ensures
        r@ == v@.subrange(from as int, to as int),
{
    let mut r = String::new();
    for i in from..to
        invariant
            from <= to <= v@.len(),
            r@ == v@.subrange(from as int, i as int),
    {
        r.push(v[i]);
    }
    r
}

/// True when the two strings have the same characters.
pub fn str_eq(a: &str, b: &str) -> (r: bool)
    ensures
        r == (a@ == b@),
{
    let x = chars_of(a);
    let y = chars_of(b);
    if x.len() != y.len() {
        return false;
    }
    for i in 0..x.len()
        invariant
            x@ == a@,
            y@ == b@,
            x@.len() == y@.len(),
            forall|j: int| 0 <= j < i ==> x@[j] == y@[j],
    {
        if x[i] != y[i] {
            return false;
        }
    }
    assert(a@ =~= b@);
    true
}

/// True when `s` begins with `prefix`.
pub fn starts_with(s: &str, prefix: &str) -> (r: bool)
    ensures
        r == prefix@.is_prefix_of(s@),
{
    let x = chars_of(s);
    let y = chars_of(prefix);
    if x.len() < y.len() {
        return false;
    }
    for i in 0..y.len()
        invariant
            x@ == s@,
            y@ == prefix@,
            x@.len() >= y@.len(),
            forall|j: int| 0 <= j < i ==> x@[j] == y@[j],
    {
        if x[i] != y[i] {
            return false;
        }
    }
    assert(y@ =~= x@.take(y@.len() as int));
    true
}

/// True when the first character of `s` is `c`.
pub fn starts_with_char(s: &str, c: char) -> (r: bool)
    ensures
        r == (s@.len() > 0 && s@[0] == c),
{
    let x = chars_of(s);
    x.len() > 0 && x[0] == c
}

/// The text without leading and trailing white space.
pub fn trim(s: &str) -> (r: String)
    ensures
        r@ == trimmed(s@),
{
    let v = chars_of(s);
    let mut i: usize = 0;
    assert(v@.skip(0) == s@);
    while i < v.len() && is_whitespace(v[i])
        invariant
            i <= v@.len(),
            trimmed_start(v@.skip(i as int)) == trimmed_start(s@),
        decreases v@.len() - i,
    {
        assert(v@.skip(i as int).drop_first() =~= v@.skip(i + 1));
        i = i + 1;
    }
    assert(trimmed_start(s@) == v@.skip(i as int));
    let mut j: usize = v.len();
    assert(v@.subrange(i as int, j as int) =~= v@.skip(i as int));
    while j > i && is_whitespace(v[j - 1])
        invariant
            i <= j <= v@.len(),
            trimmed_end(v@.subrange(i as int, j as int)) == trimmed(s@),
        decreases j,
    {
        assert(v@.subrange(i as int, j as int).drop_last() =~= v@.subrange(i as int, j - 1));
        j = j - 1;
    }
    string_of(&v, i, j)
}

/// The text without trailing white space.
pub fn trim_end(s: &str) -> (r: String)
    ensures
        r@ == trimmed_end(s@),
{
    let v = chars_of(s);
    let mut j: usize = v.len();
    assert(v@.subrange(0, j as int) =~= s@);
    while j > 0 && is_whitespace(v[j - 1])
        invariant
            j <= v@.len(),
            trimmed_end(v@.subrange(0, j as int)) == trimmed_end(s@),
        decreases j,
    {
        assert(v@.subrange(0, j as int).drop_last() =~= v@.subrange(0, j - 1));
        j = j - 1;
    }
    string_of(&v, 0, j)
}

/// True when there is nothing but white space in `s`.
pub fn blank(s: &str) -> (r: bool)
    ensures
        r == is_blank(s@),
        r == (trimmed(s@).len() == 0),
{
    let v = chars_of(s);
    proof {
        lemma_trimmed_blank(s@);
    }
    for i in 0..v.len()
        invariant
            v@ == s@,
            forall|j: int| 0 <= j < i ==> is_white(#[trigger] v@[j]),
            trimmed(s@).len() == 0 <==> is_blank(s@),
    {
        if !is_whitespace(v[i]) {
            assert(!is_white(s@[i as int]));
            return false;
        }
    }
    true
}

/// `s` cut in two where its first white space stands.
pub fn split_word(s: &str) -> (r: (String, String))
    ensures
        r.0@ == first_word(s@),
        r.1@ == s@.skip(word_end(s@) as int),
        word_end(s@) <= s@.len(),
{
    let v = chars_of(s);
    let mut k: usize = 0;
    while k < v.len() && !is_whitespace(v[k])
        invariant
            k <= v@.len(),
            forall|j: int| 0 <= j < k ==> !is_white(#[trigger] v@[j]),
        decreases v@.len() - k,
    {
        k = k + 1;
    }
    proof {
        lemma_word_end(s@, k as int);
    }
    (string_of(&v, 0, k), string_of(&v, k, v.len()))
}

/// The pieces of `s` between newlines.
pub fn split_newlines(s: &str) -> (r: Vec<String>)
    ensures
        r.deep_view() == paragraphs(s@),
{
    let v = chars_of(s);
    let mut r: Vec<String> = Vec::new();
    let mut start: usize = 0;
    let mut i: usize = 0;
    assert(v@.skip(0) == s@);
    assert(r.deep_view() + paragraphs(v@) =~= paragraphs(s@));
    while i < v.len()
        invariant
            v@ == s@,
            start <= i <= v@.len(),
            forall|j: int| start <= j < i ==> #[trigger] v@[j] != '\n',
            r.deep_view() + paragraphs(v@.skip(start as int)) == paragraphs(s@),
        decreases v@.len() - i,
    {
        if v[i] == '\n' {
            let ghost rest = v@.skip(start as int);
            let ghost before = r.deep_view();
            let piece = string_of(&v, start, i);
            proof {
                assert forall|j: int| 0 <= j < i - start implies #[trigger] rest[j] != '\n' by {
                    assert(rest[j] == v@[start + j]);
                }
                lemma_newline_at(rest, i - start);
                assert(rest.take(i - start) =~= piece@);
                assert(rest.skip(i - start + 1) =~= v@.skip(i + 1));
            }
            r.push(piece);
            proof {
                assert(r.deep_view() =~= before.push(piece@));
                assert(before + (seq![piece@] + paragraphs(v@.skip(i + 1))) =~= before.push(piece@)
                    + paragraphs(v@.skip(i + 1)));
            }
            start = i + 1;
        }
        i = i + 1;
    }
    let ghost rest = v@.skip(start as int);
    let ghost before = r.deep_view();
    let piece = string_of(&v, start, v.len());
    proof {
        assert forall|j: int| 0 <= j < rest.len() implies #[trigger] rest[j] != '\n' by {
            assert(rest[j] == v@[start + j]);
        }
        lemma_newline_at(rest, rest.len() as int);
        assert(piece@ =~= rest);
    }
    r.push(piece);
    assert(r.deep_view() =~= before + seq![piece@]);
    r
}

/// The lines of `s`, without their line ends.
pub fn lines(s: &str) -> (r: Vec<String>)
    ensures
        r.deep_view() == lines_of(s@),
{
    let v = chars_of(s);
    let mut r: Vec<String> = Vec::new();
    let mut start: usize = 0;
    let mut i: usize = 0;
    assert(v@.skip(0) == s@);
    assert(r.deep_view() + lines_of(v@) =~= lines_of(s@));
    while i < v.len()
        invariant
            v@ == s@,
            start <= i <= v@.len(),
            forall|j: int| start <= j < i ==> #[trigger] v@[j] != '\n',
            r.deep_view() + lines_of(v@.skip(start as int)) == lines_of(s@),
        decreases v@.len() - i,
    {
        if v[i] == '\n' {
            let ghost rest = v@.skip(start as int);
            let ghost before = r.deep_view();
            let end: usize = if i > start && v[i - 1] == '\r' { i - 1 } else { i };
            let piece = string_of(&v, start, end);
            proof {
                assert forall|j: int| 0 <= j < i - start implies #[trigger] rest[j] != '\n' by {
                    assert(rest[j] == v@[start + j]);
                }
                lemma_newline_at(rest, i - start);
                assert(rest.take(i - start) =~= v@.subrange(start as int, i as int));
                assert(without_return(rest.take(i - start)) =~= piece@);
                assert(rest.skip(i - start + 1) =~= v@.skip(i + 1));
            }
            r.push(piece);
            proof {
                assert(r.deep_view() =~= before.push(piece@));
                assert(before + (seq![piece@] + lines_of(v@.skip(i + 1))) =~= before.push(piece@)
                    + lines_of(v@.skip(i + 1)));
            }
            start = i + 1;
        }
        i = i + 1;
    }
    let ghost rest = v@.skip(start as int);
    let ghost before = r.deep_view();
    proof {
        assert forall|j: int| 0 <= j < rest.len() implies #[trigger] rest[j] != '\n' by {
            assert(rest[j] == v@[start + j]);
        }
        lemma_newline_at(rest, rest.len() as int);
    }
    if start < v.len() {
        let piece = string_of(&v, start, v.len());
        assert(piece@ =~= rest);
        r.push(piece);
        assert(r.deep_view() =~= before + seq![piece@]);
    } else {
        assert(before + lines_of(rest) =~= before);
    }
    r
}

/// `parts` one after the other, with `sep` between neighbours.
pub fn join(parts: &Vec<String>, sep: &str) -> (r: String)
    ensures
        r@ == joined(parts.deep_view(), sep@),
{
    let mut r = String::new();
    for i in 0..parts.len()
        invariant
            r@ == joined(parts.deep_view().take(i as int), sep@),
    {
        let ghost seen = parts.deep_view().take(i + 1);
        assert(seen.drop_last() =~= parts.deep_view().take(i as int));
        if i > 0 {
            r.append(sep);
        } else {
            assert(r@ + seen[0] =~= seen[0]);
        }
        r.append(parts[i].as_str());
    }
    assert(parts.deep_view().take(parts@.len() as int) =~= parts.deep_view());
    r
}

fn digit_char(d: u64) -> (c: char)
    requires
        d < 10,
    ensures
        c == digit(d as nat),
{
    if d == 0 { '0' } else if d == 1 { '1' } else if d == 2 { '2' } else if d == 3 { '3' }
    else if d == 4 { '4' } else if d == 5 { '5' } else if d == 6 { '6' } else if d == 7 { '7' }
    else if d == 8 { '8' } else { '9' }
}

/// `n` in decimal.
pub fn number(n: u64) -> (r: String)
    ensures
        r@ == decimal(n as nat),
    decreases n,
{
    if n < 10 {
        let mut r = String::new();
        r.push(digit_char(n));
        assert(r@ =~= seq![digit(n as nat)]);
        r
    } else {
        let mut r = number(n / 10);
        r.push(digit_char(n % 10));
        r
    }
}

/// `n` spaces.
pub fn blanks(n: usize) -> (r: String)
    ensures
        r@ == spaces(n as nat),
{
    let mut r = String::new();
    for i in 0..n
        invariant
            r@ == spaces(i as nat),
    {
        r.push(' ');
        assert(r@ =~= spaces((i + 1) as nat));
    }
    r
}

/// `s`, filled up with spaces on the right to at least `n` characters.
pub fn pad_right(s: &str, n: usize) -> (r: String)
    ensures
        r@ == padded(s@, n as nat),
{
    let len = chars_of(s).len();
    let mut r = String::from_str(s);
    if len < n {
        r.append(blanks(n - len).as_str());
    }
    r
}

/// The strings `a` and `b`, one after the other.
pub fn concat2(a: &str, b: &str) -> (r: String)
    ensures
        r@ == a@ + b@,
{
    let mut r = String::from_str(a);
    r.append(b);
    r
}

/// The strings `a`, `b` and `c`, one after the other.
pub fn concat3(a: &str, b: &str, c: &str) -> (r: String)
    ensures
        r@ == a@ + b@ + c@,
{
    let mut r = String::from_str(a);
    r.append(b);
    r.append(c);
    r
}

} // verus!
