//! Verified text utilities the report parsers are built on: whitespace
//! trimming, splitting on a delimiter character, line splitting, digit-run
//! parsing and decimal rendering.

use vstd::prelude::*;

verus! {

/// Whitespace stripped from around report fields.
pub open spec fn is_space(c: char) -> bool {
    c == ' ' || c == '\t' || c == '\r' || c == '\n'
}

fn exec_is_space(c: char) -> (r: bool)
    ensures
        r == is_space(c),
{
    c == ' ' || c == '\t' || c == '\r' || c == '\n'
}

pub open spec fn trim_front(s: Seq<char>) -> Seq<char>
    decreases s.len(),
{
    if s.len() > 0 && is_space(s[0]) {
        trim_front(s.drop_first())
    } else {
        s
    }
}

pub open spec fn trim_back(s: Seq<char>) -> Seq<char>
    decreases s.len(),
{
    if s.len() > 0 && is_space(s.last()) {
        trim_back(s.drop_last())
    } else {
        s
    }
}

/// The sequence with leading and trailing whitespace removed.
pub open spec fn spec_trim(s: Seq<char>) -> Seq<char> {
    trim_back(trim_front(s))
}

/// Remove leading and trailing whitespace from a borrowed string slice.
pub fn trim_str(s: &str) -> (r: &str)
    ensures
        r@ == spec_trim(s@),
{
    let len = s.unicode_len();
    let mut a: usize = 0;
    proof {
        assert(s@.skip(0) =~= s@);
    }
    while a < len && exec_is_space(s.get_char(a))
        invariant
            a <= len,
            len == s@.len(),
            trim_front(s@) == trim_front(s@.skip(a as int)),
        decreases len - a,
    {
        proof {
            assert(s@.skip(a as int).drop_first() =~= s@.skip(a as int + 1));
        }
        a += 1;
    }
    proof {
        assert(trim_front(s@.skip(a as int)) == s@.skip(a as int));
        assert(s@.skip(a as int) =~= s@.subrange(a as int, len as int));
    }
    let mut b: usize = len;
    while b > a && exec_is_space(s.get_char(b - 1))
        invariant
            a <= b <= len,
            len == s@.len(),
            trim_back(s@.subrange(a as int, len as int)) == trim_back(
                s@.subrange(a as int, b as int),
            ),
        decreases b,
    {
        proof {
            assert(s@.subrange(a as int, b as int).drop_last() =~= s@.subrange(
                a as int,
                b as int - 1,
            ));
        }
        b -= 1;
    }
    proof {
        assert(trim_back(s@.subrange(a as int, b as int)) == s@.subrange(a as int, b as int));
    }
    s.substring_char(a, b)
}

/// Index of the first occurrence of `c` in `s`, or -1 when `c` does not
/// occur.
pub open spec fn first_index_of(s: Seq<char>, c: char) -> int
    decreases s.len(),
{
    if s.len() == 0 {
        -1
    } else if s[0] == c {
        0
    } else {
        let r = first_index_of(s.drop_first(), c);
        if r < 0 {
            -1
        } else {
            r + 1
        }
    }
}

pub proof fn lemma_first_index_of(s: Seq<char>, c: char)
    ensures
        first_index_of(s, c) == -1 ==> (forall|i: int| 0 <= i < s.len() ==> s[i] != c),
        first_index_of(s, c) >= 0 ==> {
            let r = first_index_of(s, c);
            &&& r < s.len()
            &&& s[r] == c
            &&& forall|i: int| 0 <= i < r ==> s[i] != c
        },
    decreases s.len(),
{
    if s.len() > 0 && s[0] != c {
        lemma_first_index_of(s.drop_first(), c);
        let r1 = first_index_of(s.drop_first(), c);
        if r1 >= 0 {
            assert(s.drop_first()[r1] == s[r1 + 1]);
            assert forall|i: int| 0 <= i < r1 + 1 implies s[i] != c by {
                if i > 0 {
                    assert(s.drop_first()[i - 1] == s[i]);
                }
            }
        } else {
            assert forall|i: int| 0 <= i < s.len() implies s[i] != c by {
                if i > 0 {
                    assert(s.drop_first()[i - 1] == s[i]);
                }
            }
        }
    }
}

/// Find the first occurrence of `c` in `s`.
pub fn find_char(s: &str, c: char) -> (r: Option<usize>)
    ensures
        match r {
            Some(i) => first_index_of(s@, c) == i as int,
            None => first_index_of(s@, c) == -1,
        },
{
    let len = s.unicode_len();
    let mut i: usize = 0;
    while i < len
        invariant
            i <= len,
            len == s@.len(),
            forall|j: int| 0 <= j < i ==> s@[j] != c,
        decreases len - i,
    {
        if s.get_char(i) == c {
            proof {
                lemma_first_index_of(s@, c);
            }
            return Some(i);
        }
        i += 1;
    }
    proof {
        lemma_first_index_of(s@, c);
    }
    None
}

/// Character-wise string equality.
pub fn str_eq(a: &str, b: &str) -> (r: bool)
    ensures
        r == (a@ == b@),
{
    let la = a.unicode_len();
    let lb = b.unicode_len();
    if la != lb {
        return false;
    }
    let mut i: usize = 0;
    while i < la
        invariant
            i <= la,
            la == a@.len(),
            la == b@.len(),
            forall|j: int| 0 <= j < i ==> a@[j] == b@[j],
        decreases la - i,
    {
        if a.get_char(i) != b.get_char(i) {
            return false;
        }
        i += 1;
    }
    proof {
        assert(a@ =~= b@);
    }
    true
}

/// A decimal digit.
pub open spec fn is_digit(c: char) -> bool {
    '0' <= c && c <= '9'
}

pub open spec fn all_digits(s: Seq<char>) -> bool {
    forall|i: int| 0 <= i < s.len() ==> is_digit(#[trigger] s[i])
}

/// Numeric value of a digit run, most significant digit first.
pub open spec fn digits_value(s: Seq<char>) -> int
    decreases s.len(),
{
    if s.len() == 0 {
        0
    } else {
        digits_value(s.drop_last()) * 10 + (s.last() as int - '0' as int)
    }
}

pub proof fn lemma_digits_value_nonneg(s: Seq<char>)
    requires
        all_digits(s),
    ensures
        digits_value(s) >= 0,
    decreases s.len(),
{
    if s.len() > 0 {
        assert(all_digits(s.drop_last()));
        lemma_digits_value_nonneg(s.drop_last());
    }
}

/// Extending a digit run to the right never decreases its value.
pub proof fn lemma_digits_value_take_le(s: Seq<char>, i: int)
    requires
        all_digits(s),
        0 <= i <= s.len(),
    ensures
        digits_value(s.take(i)) <= digits_value(s),
    decreases s.len() - i,
{
    if i == s.len() {
        assert(s.take(i) =~= s);
    } else {
        assert(all_digits(s.drop_last()));
        assert(s.drop_last().take(i) =~= s.take(i));
        lemma_digits_value_take_le(s.drop_last(), i);
        lemma_digits_value_nonneg(s.drop_last());
    }
}

/// Parse a digit run as a `u64`.  `None` when the run is empty, holds a
/// non-digit character, or its value does not fit in 64 bits.
pub fn parse_u64_digits(s: &str) -> (r: Option<u64>)
    ensures
        match r {
            Some(v) => s@.len() >= 1 && all_digits(s@) && v == digits_value(s@),
            None => !(s@.len() >= 1 && all_digits(s@) && digits_value(s@) <= u64::MAX),
        },
{
    let len = s.unicode_len();
    if len == 0 {
        return None;
    }
    let mut val: u64 = 0;
    let mut i: usize = 0;
    proof {
        assert(s@.take(0) =~= Seq::<char>::empty());
    }
    while i < len
        invariant
            i <= len,
            len == s@.len(),
            all_digits(s@.take(i as int)),
            val == digits_value(s@.take(i as int)),
        decreases len - i,
    {
        let c = s.get_char(i);
        if !('0' <= c && c <= '9') {
            proof {
                assert(!is_digit(s@[i as int]));
            }
            return None;
        }
        let d: u64 = (c as u32 - '0' as u32) as u64;
        proof {
            assert(s@.take(i as int + 1).drop_last() =~= s@.take(i as int));
            assert(all_digits(s@.take(i as int + 1)));
        }
        if val > (u64::MAX - d) / 10 {
            proof {
                assert(val * 10 + d > u64::MAX) by (nonlinear_arith)
                    requires
                        val > (u64::MAX - d) / 10,
                        d <= 9,
                ;
                if all_digits(s@) {
                    assert(s@.take(i as int + 1).take(i as int) =~= s@.take(i as int));
                    assert(digits_value(s@.take(i as int + 1)) == val * 10 + d);
                    lemma_digits_value_take_le(s@, i as int + 1);
                }
            }
            return None;
        }
        proof {
            assert(val * 10 + d <= u64::MAX) by (nonlinear_arith)
                requires
                    val <= (u64::MAX - d) / 10,
                    d <= 9,
            ;
        }
        val = val * 10 + d;
        i += 1;
    }
    proof {
        assert(s@.take(len as int) =~= s@);
    }
    Some(val)
}

/// The character for one decimal digit value.
pub open spec fn digit_char(d: int) -> char {
    if d == 0 {
        '0'
    } else if d == 1 {
        '1'
    } else if d == 2 {
        '2'
    } else if d == 3 {
        '3'
    } else if d == 4 {
        '4'
    } else if d == 5 {
        '5'
    } else if d == 6 {
        '6'
    } else if d == 7 {
        '7'
    } else if d == 8 {
        '8'
    } else {
        '9'
    }
}

/// The decimal rendering of a non-negative integer, most significant
/// digit first.
pub open spec fn spec_u64_digits(v: int) -> Seq<char>
    decreases v,
{
    if v < 10 {
        seq![digit_char(v)]
    } else {
        spec_u64_digits(v / 10).push(digit_char(v % 10))
    }
}

fn digit_str(d: u64) -> (r: &'static str)
    requires
        d < 10,
    ensures
        r@ == seq![digit_char(d as int)],
{
    proof {
        reveal_strlit("0");
        reveal_strlit("1");
        reveal_strlit("2");
        reveal_strlit("3");
        reveal_strlit("4");
        reveal_strlit("5");
        reveal_strlit("6");
        reveal_strlit("7");
        reveal_strlit("8");
        reveal_strlit("9");
    }
    let r = if d == 0 {
        "0"
    } else if d == 1 {
        "1"
    } else if d == 2 {
        "2"
    } else if d == 3 {
        "3"
    } else if d == 4 {
        "4"
    } else if d == 5 {
        "5"
    } else if d == 6 {
        "6"
    } else if d == 7 {
        "7"
    } else if d == 8 {
        "8"
    } else {
        "9"
    };
    proof {
        assert(r@ =~= seq![digit_char(d as int)]);
    }
    r
}

/// Render an unsigned integer in decimal.
pub fn u64_to_string(v: u64) -> (r: String)
    ensures
        r@ == spec_u64_digits(v as int),
    decreases v,
{
    if v < 10 {
        String::from_str(digit_str(v))
    } else {
        let mut s = u64_to_string(v / 10);
        s.append(digit_str(v % 10));
        proof {
            assert(s@ =~= spec_u64_digits((v / 10) as int).push(digit_char((v % 10) as int)));
        }
        s
    }
}

/// The parts joined with single spaces.
pub open spec fn spec_join_spaces(parts: Seq<Seq<char>>) -> Seq<char>
    decreases parts.len(),
{
    if parts.len() == 0 {
        Seq::empty()
    } else if parts.len() == 1 {
        parts[0]
    } else {
        spec_join_spaces(parts.drop_last()) + seq![' '] + parts.last()
    }
}

/// Join strings with single spaces.
pub fn join_spaces(parts: &Vec<String>) -> (r: String)
    ensures
        r@ == spec_join_spaces(str_views(parts@)),
{
    let ghost pv = str_views(parts@);
    let mut out = String::new();
    let mut i: usize = 0;
    let n = parts.len();
    proof {
        reveal_strlit(" ");
        assert(pv.take(0) =~= Seq::<Seq<char>>::empty());
    }
    while i < n
        invariant
            i <= n,
            n == parts@.len(),
            n == pv.len(),
            pv == str_views(parts@),
            out@ == spec_join_spaces(pv.take(i as int)),
        decreases n - i,
    {
        proof {
            reveal_strlit(" ");
            assert(pv.take(i as int + 1).drop_last() =~= pv.take(i as int));
            assert(pv.take(i as int + 1).last() == pv[i as int]);
            assert(pv[i as int] == parts@[i as int]@);
        }
        if i > 0 {
            out.append(" ");
            proof {
                assert(" "@ =~= seq![' ']);
            }
        }
        out.append(parts[i].as_str());
        proof {
            if i == 0 {
                assert(pv.take(1) =~= seq![pv[0]]);
                assert(out@ =~= pv[0]);
            } else {
                assert(out@ =~= spec_join_spaces(pv.take(i as int)) + seq![' '] + pv[i as int]);
            }
        }
        i += 1;
    }
    proof {
        assert(pv.take(n as int) =~= pv);
    }
    out
}

/// Every character is whitespace.
pub open spec fn all_space(s: Seq<char>) -> bool {
    forall|i: int| 0 <= i < s.len() ==> is_space(#[trigger] s[i])
}

pub proof fn lemma_trim_front_space(s: Seq<char>)
    requires
        all_space(s),
    ensures
        trim_front(s).len() == 0,
    decreases s.len(),
{
    if s.len() > 0 {
        assert(all_space(s.drop_first())) by {
            assert(forall|i: int|
                0 <= i < s.drop_first().len() ==> #[trigger] s.drop_first()[i] == s[i + 1]);
        }
        lemma_trim_front_space(s.drop_first());
    }
}

/// A whitespace-only sequence trims to nothing.
pub proof fn lemma_trim_space(s: Seq<char>)
    requires
        all_space(s),
    ensures
        spec_trim(s).len() == 0,
{
    lemma_trim_front_space(s);
}

/// Splitting a whitespace-only sequence yields whitespace-only pieces.
pub proof fn lemma_split_space(s: Seq<char>, sep: char)
    requires
        all_space(s),
    ensures
        forall|i: int|
            0 <= i < spec_split(s, sep).len() ==> all_space(#[trigger] spec_split(s, sep)[i]),
    decreases s.len(),
{
    if s.len() == 0 {
    } else {
        assert(all_space(s.drop_last()));
        lemma_split_space(s.drop_last(), sep);
        lemma_spec_split_len(s.drop_last(), sep);
        if s.last() == sep {
        } else {
            let p = spec_split(s.drop_last(), sep);
            let q = p.update(p.len() - 1, p.last().push(s.last()));
            assert(is_space(s.last()));
            assert(all_space(p.last().push(s.last())));
            assert(forall|i: int| 0 <= i < q.len() && i != p.len() - 1 ==> q[i] == p[i]);
        }
    }
}

/// The lines of a whitespace-only text are whitespace-only.
pub proof fn lemma_lines_space(s: Seq<char>)
    requires
        all_space(s),
    ensures
        forall|i: int| 0 <= i < spec_lines(s).len() ==> all_space(#[trigger] spec_lines(s)[i]),
{
    if s.len() > 0 {
        lemma_split_space(s, '\n');
        lemma_spec_split_len(s, '\n');
        let p = spec_split(s, '\n');
        let q = if p.last().len() == 0 {
            p.drop_last()
        } else {
            p
        };
        if p.last().len() == 0 {
            assert(forall|i: int| 0 <= i < p.drop_last().len() ==> p.drop_last()[i] == p[i]);
        }
        assert(forall|i: int| 0 <= i < q.len() ==> all_space(#[trigger] q[i]));
        assert forall|i: int| 0 <= i < spec_lines(s).len() implies all_space(
            #[trigger] spec_lines(s)[i],
        ) by {
            assert(spec_lines(s)[i] == strip_cr(q[i]));
            assert(all_space(q[i]));
            if q[i].len() > 0 && q[i].last() == '\r' {
                assert(forall|j: int|
                    0 <= j < q[i].drop_last().len() ==> #[trigger] q[i].drop_last()[j] == q[i][j]);
            }
        }
    }
}

/// The views of a vector of strings.
pub open spec fn str_views(v: Seq<String>) -> Seq<Seq<char>> {
    v.map_values(|p: String| p@)
}

/// Pieces of `s` between occurrences of `sep`.  As with the standard
/// splitter, there is always at least one piece, and separators at either
/// end contribute empty pieces.
pub open spec fn spec_split(s: Seq<char>, sep: char) -> Seq<Seq<char>>
    decreases s.len(),
{
    if s.len() == 0 {
        seq![Seq::<char>::empty()]
    } else if s.last() == sep {
        spec_split(s.drop_last(), sep).push(Seq::<char>::empty())
    } else {
        let p = spec_split(s.drop_last(), sep);
        p.update(p.len() - 1, p.last().push(s.last()))
    }
}

pub proof fn lemma_spec_split_len(s: Seq<char>, sep: char)
    ensures
        spec_split(s, sep).len() >= 1,
    decreases s.len(),
{
    if s.len() > 0 {
        lemma_spec_split_len(s.drop_last(), sep);
    }
}

/// Split a string at every occurrence of `sep`.
pub fn split_char(s: &str, sep: char) -> (r: Vec<String>)
    ensures
        str_views(r@) == spec_split(s@, sep),
        r@.len() >= 1,
{
    let len = s.unicode_len();
    let mut pieces: Vec<String> = Vec::new();
    let mut start: usize = 0;
    let mut i: usize = 0;
    proof {
        assert(s@.take(0) =~= Seq::<char>::empty());
        assert(s@.subrange(0, 0) =~= Seq::<char>::empty());
        assert(str_views(pieces@).push(s@.subrange(0, 0)) =~= spec_split(s@.take(0), sep));
    }
    while i < len
        invariant
            start <= i <= len,
            len == s@.len(),
            spec_split(s@.take(i as int), sep) == str_views(pieces@).push(
                s@.subrange(start as int, i as int),
            ),
        decreases len - i,
    {
        let c = s.get_char(i);
        proof {
            assert(s@.take(i as int + 1).drop_last() =~= s@.take(i as int));
            lemma_spec_split_len(s@.take(i as int), sep);
        }
        if c == sep {
            let ghost old_pieces = pieces@;
            let piece = String::from_str(s.substring_char(start, i));
            pieces.push(piece);
            proof {
                assert(str_views(pieces@) =~= str_views(old_pieces).push(
                    s@.subrange(start as int, i as int),
                ));
                assert(s@.subrange(i as int + 1, i as int + 1) =~= Seq::<char>::empty());
                assert(spec_split(s@.take(i as int + 1), sep) =~= str_views(pieces@).push(
                    s@.subrange(i as int + 1, i as int + 1),
                ));
            }
            start = i + 1;
        } else {
            proof {
                let p = spec_split(s@.take(i as int), sep);
                assert(s@.subrange(start as int, i as int).push(s@[i as int]) =~= s@.subrange(
                    start as int,
                    i as int + 1,
                ));
                assert(p.update(p.len() - 1, p.last().push(s@[i as int])) =~= str_views(
                    pieces@,
                ).push(s@.subrange(start as int, i as int + 1)));
            }
        }
        i += 1;
    }
    let ghost old_pieces = pieces@;
    let lastp = String::from_str(s.substring_char(start, len));
    pieces.push(lastp);
    proof {
        assert(s@.take(len as int) =~= s@);
        assert(str_views(pieces@) =~= str_views(old_pieces).push(
            s@.subrange(start as int, len as int),
        ));
    }
    pieces
}

/// A line with a trailing carriage return removed.
pub open spec fn strip_cr(p: Seq<char>) -> Seq<char> {
    if p.len() > 0 && p.last() == '\r' {
        p.drop_last()
    } else {
        p
    }
}

/// The lines of a report text: pieces between newlines, each with a
/// trailing carriage return removed, and with no final empty line.
pub open spec fn spec_lines(s: Seq<char>) -> Seq<Seq<char>> {
    if s.len() == 0 {
        Seq::empty()
    } else {
        let p = spec_split(s, '\n');
        let q = if p.last().len() == 0 {
            p.drop_last()
        } else {
            p
        };
        q.map_values(|l: Seq<char>| strip_cr(l))
    }
}

/// Split a report text into lines.
pub fn lines_of(s: &str) -> (r: Vec<String>)
    ensures
        str_views(r@) == spec_lines(s@),
{
    if s.unicode_len() == 0 {
        let r: Vec<String> = Vec::new();
        proof {
            assert(str_views(r@) =~= spec_lines(s@));
        }
        return r;
    }
    let mut p = split_char(s, '\n');
    let ghost q0 = p@;
    if p[p.len() - 1].as_str().unicode_len() == 0 {
        p.pop();
        proof {
            assert(str_views(p@) =~= str_views(q0).drop_last());
        }
    }
    let ghost q = str_views(p@);
    let mut r: Vec<String> = Vec::new();
    let mut i: usize = 0;
    let n = p.len();
    while i < n
        invariant
            i <= n,
            n == p@.len(),
            q == str_views(p@),
            str_views(r@) =~= q.take(i as int).map_values(|l: Seq<char>| strip_cr(l)),
        decreases n - i,
    {
        let ghost old_r = r@;
        let line = &p[i];
        let ll = line.as_str().unicode_len();
        if ll > 0 && line.as_str().get_char(ll - 1) == '\r' {
            r.push(String::from_str(line.as_str().substring_char(0, ll - 1)));
        } else {
            r.push(String::from_str(line.as_str()));
        }
        proof {
            assert(r@.last()@ =~= strip_cr(q[i as int]));
            assert(q.take(i as int + 1) =~= q.take(i as int).push(q[i as int]));
            assert(str_views(r@) =~= str_views(old_r).push(r@.last()@));
        }
        i += 1;
    }
    proof {
        assert(q.take(n as int) =~= q);
        assert(str_views(r@) =~= spec_lines(s@));
    }
    r
}

} // verus!
