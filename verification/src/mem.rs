//! Parsing of the per-process memory-accounting text: each line of the form
//! `Private...: <value> kB` contributes its value to the private-memory
//! total.

use vstd::prelude::*;

verus! {

/// How a sampling operation can fail.
#[derive(Clone, Copy, Debug, PartialEq, Eq, Structural)]
pub enum SampleError {
    /// The per-process accounting source could not be opened or read:
    /// the process vanished, or the caller lacks permission.
    Unreadable,
    /// A line of the accounting text does not carry a readable value.
    Malformed,
    /// The summed values do not fit the result type.
    Overflow,
}

/// The characters the accounting format treats as blank.
pub open spec fn is_blank(c: char) -> bool {
    c == ' ' || c == '\t' || c == '\n' || c == '\r'
}

/// Decimal digit.
pub open spec fn is_digit(c: char) -> bool {
    48 <= c as u32 && c as u32 <= 57
}

/// Value of a decimal digit.
pub open spec fn digit_value(c: char) -> int {
    c as u32 - 48
}

/// Every character is a decimal digit.
pub open spec fn all_digits(s: Seq<char>) -> bool {
    forall|i: int| 0 <= i < s.len() ==> is_digit(s[i])
}

/// The number a digit string denotes.
pub open spec fn digits_value(s: Seq<char>) -> int
    decreases s.len(),
{
    if s.len() == 0 {
        0
    } else {
        digits_value(s.drop_last()) * 10 + digit_value(s.last())
    }
}

/// A signed decimal integer: an optional sign followed by at least one
/// digit.
pub open spec fn is_int_token(s: Seq<char>) -> bool {
    if s.len() == 0 {
        false
    } else if s[0] == '-' || s[0] == '+' {
        s.len() > 1 && all_digits(s.subrange(1, s.len() as int))
    } else {
        all_digits(s)
    }
}

/// The value a signed decimal integer denotes.
pub open spec fn int_token_value(s: Seq<char>) -> int {
    if s.len() > 0 && s[0] == '-' {
        -digits_value(s.subrange(1, s.len() as int))
    } else if s.len() > 0 && s[0] == '+' {
        digits_value(s.subrange(1, s.len() as int))
    } else {
        digits_value(s)
    }
}

/// A digit string denotes a non-negative number.
pub proof fn lemma_digits_value_nonneg(s: Seq<char>)
    requires
        all_digits(s),
    ensures
        digits_value(s) >= 0,
    decreases s.len(),
{
    if s.len() > 0 {
        assert(all_digits(s.drop_last()));
        lemma_digits_value_nonneg(s.drop_last());
        assert(digit_value(s.last()) >= 0);
        assert(digits_value(s.drop_last()) * 10 >= 0) by (nonlinear_arith)
            requires digits_value(s.drop_last()) >= 0,
        ;
    }
}

/// A prefix of a digit string denotes at most what the whole denotes.
pub proof fn lemma_digits_prefix_le(s: Seq<char>, m: int)
    requires
        all_digits(s),
        0 <= m <= s.len(),
    ensures
        0 <= digits_value(s.subrange(0, m)) <= digits_value(s),
    decreases s.len() - m,
{
    let p = s.subrange(0, m);
    assert(all_digits(p));
    lemma_digits_value_nonneg(p);
    if m == s.len() {
        assert(p =~= s);
    } else {
        let q = s.subrange(0, m + 1);
        assert(q.drop_last() =~= p);
        assert(q.last() == s[m]);
        assert(digits_value(q) == digits_value(p) * 10 + digit_value(s[m]));
        assert(digits_value(p) * 10 >= digits_value(p)) by (nonlinear_arith)
            requires digits_value(p) >= 0,
        ;
        lemma_digits_prefix_le(s, m + 1);
    }
}

/// Exact blank test.
fn blank(c: char) -> (b: bool)
    ensures
        b == is_blank(c),
{
    c == ' ' || c == '\t' || c == '\n' || c == '\r'
}

/// First occurrence of `c` in `line` at or after `from`.
fn find_char_from(line: &str, from: usize, c: char) -> (r: Option<usize>)
    requires
        from <= line@.len(),
    ensures
        match r {
            Some(i) => from <= i < line@.len() && line@[i as int] == c && (forall|j: int|
                from <= j < i ==> line@[j] != c),
            None => forall|j: int| from <= j < line@.len() ==> line@[j] != c,
        },
{
    let n = line.unicode_len();
    let mut i = from;
    while i < n
        invariant
            from <= i <= n,
            n == line@.len(),
            forall|j: int| from <= j < i ==> line@[j] != c,
        decreases n - i,
    {
        if line.get_char(i) == c {
            return Some(i);
        }
        i += 1;
    }
    None
}

/// First non-blank position at or after `from`; the length when all the
/// rest is blank.
fn skip_blanks_from(line: &str, from: usize) -> (r: usize)
    requires
        from <= line@.len(),
    ensures
        from <= r <= line@.len(),
        forall|j: int| from <= j < r ==> is_blank(line@[j]),
        r < line@.len() ==> !is_blank(line@[r as int]),
{
    let n = line.unicode_len();
    let mut i = from;
    while i < n
        invariant
            from <= i <= n,
            n == line@.len(),
            forall|j: int| from <= j < i ==> is_blank(line@[j]),
        decreases n - i,
    {
        if !blank(line.get_char(i)) {
            return i;
        }
        i += 1;
    }
    n
}

/// Last non-blank position, if any.
fn last_nonblank(line: &str) -> (r: Option<usize>)
    ensures
        match r {
            Some(l) => l < line@.len() && !is_blank(line@[l as int]) && (forall|j: int|
                l < j < line@.len() ==> is_blank(line@[j])),
            None => forall|j: int| 0 <= j < line@.len() ==> is_blank(line@[j]),
        },
{
    let n = line.unicode_len();
    let mut i = n;
    while i > 0
        invariant
            0 <= i <= n,
            n == line@.len(),
            forall|j: int| i <= j < n ==> is_blank(line@[j]),
        decreases i,
    {
        if !blank(line.get_char(i - 1)) {
            return Some(i - 1);
        }
        i -= 1;
    }
    None
}

/// The characters `[start, end)` of `line`, as a vector.
fn collect_chars(line: &str, start: usize, end: usize) -> (v: Vec<char>)
    requires
        start <= end <= line@.len(),
    ensures
        v@ == line@.subrange(start as int, end as int),
{
    let mut v: Vec<char> = Vec::new();
    let mut i = start;
    proof {
        assert(v@ =~= line@.subrange(start as int, start as int));
    }
    while i < end
        invariant
            start <= i <= end <= line@.len(),
            v@ == line@.subrange(start as int, i as int),
        decreases end - i,
    {
        proof {
            assert(line@.subrange(start as int, i as int + 1) =~= line@.subrange(
                start as int,
                i as int,
            ).push(line@[i as int]));
        }
        v.push(line.get_char(i));
        i += 1;
    }
    v
}

/// Parses the characters `[start, end)` of `line` as a signed decimal
/// integer; `None` when they are not one, or its value does not fit an i32.
fn parse_int_token(line: &str, start: usize, end: usize) -> (r: Option<i32>)
    requires
        start < end <= line@.len(),
    ensures
        match r {
            Some(v) => {
                let t = line@.subrange(start as int, end as int);
                is_int_token(t) && i32::MIN <= int_token_value(t) <= i32::MAX && v as int
                    == int_token_value(t)
            },
            None => {
                let t = line@.subrange(start as int, end as int);
                !(is_int_token(t) && i32::MIN <= int_token_value(t) <= i32::MAX)
            },
        },
{
    let v = collect_chars(line, start, end);
    parse_chars_i32(&v)
}

/// The line holds a colon.
pub open spec fn has_colon(s: Seq<char>) -> bool {
    exists|k: int| 0 <= k < s.len() && s[k] == ':'
}

/// `k` is the first colon of the line.
pub open spec fn first_colon_at(s: Seq<char>, k: int) -> bool {
    0 <= k < s.len() && s[k] == ':' && (forall|j: int| 0 <= j < k ==> s[j] != ':')
}

/// The value field of an accounting line sits at `[start, e)`: after the
/// first colon (at `k`), leading blanks skipped, ending at the first space
/// within the blank-trimmed remainder (whose last non-blank sits at `last`).
pub open spec fn extraction_at(s: Seq<char>, k: int, start: int, last: int, e: int) -> bool {
    &&& first_colon_at(s, k)
    &&& k < start < s.len()
    &&& !is_blank(s[start])
    &&& (forall|j: int| k < j < start ==> is_blank(s[j]))
    &&& start <= last < s.len()
    &&& !is_blank(s[last])
    &&& (forall|j: int| last < j < s.len() ==> is_blank(s[j]))
    &&& start < e <= last
    &&& s[e] == ' '
    &&& (forall|j: int| start <= j < e ==> s[j] != ' ')
}

/// The value field of the line sits at `[start, e)`.
pub open spec fn token_bounds(s: Seq<char>, start: int, e: int) -> bool {
    exists|k: int, last: int| extraction_at(s, k, start, last, e)
}

/// A line the accounting parser accepts: either it has no colon, or its
/// value field is a decimal integer that fits an i32.
pub open spec fn wf_memory_line(s: Seq<char>) -> bool {
    has_colon(s) ==> exists|start: int, e: int|
        {
            &&& #[trigger] token_bounds(s, start, e)
            &&& is_int_token(s.subrange(start, e))
            &&& i32::MIN <= int_token_value(s.subrange(start, e)) <= i32::MAX
        }
}

/// The value an accounting line denotes: 0 for a line without a colon,
/// otherwise the value of its value field.
pub open spec fn memory_line_value(s: Seq<char>) -> int {
    if !has_colon(s) {
        0
    } else {
        let (start, e) = choose|start: int, e: int| #[trigger] token_bounds(s, start, e);
        int_token_value(s.subrange(start, e))
    }
}

/// The value field's bounds are unique.
pub proof fn lemma_token_bounds_unique(s: Seq<char>, s1: int, e1: int, s2: int, e2: int)
    requires
        token_bounds(s, s1, e1),
        token_bounds(s, s2, e2),
    ensures
        s1 == s2,
        e1 == e2,
{
    let (k1, l1) = choose|k: int, l: int| extraction_at(s, k, s1, l, e1);
    let (k2, l2) = choose|k: int, l: int| extraction_at(s, k, s2, l, e2);
    assert(k1 == k2);
    assert(s1 == s2);
    assert(e1 == e2);
}

/// Parses one accounting line. Returns the line's value — 0 when the line
/// has no colon — and `None` exactly when the line has a colon but the
/// value field is missing, is not a decimal integer, or does not fit.
pub fn memory_line_value_checked(line: &str) -> (r: Option<i32>)
    ensures
        !has_colon(line@) ==> r == Some(0i32),
        wf_memory_line(line@) ==> (r matches Some(v) && v as int == memory_line_value(line@)),
        !wf_memory_line(line@) ==> r == None::<i32>,
{
    let ghost s = line@;
    let n = line.unicode_len();
    let colon = match find_char_from(line, 0, ':') {
        None => {
            proof {
                assert(!has_colon(s));
                assert(memory_line_value(s) == 0);
            }
            return Some(0);
        },
        Some(k) => k,
    };
    proof {
        assert(first_colon_at(s, colon as int));
        assert(has_colon(s));
    }
    let start = skip_blanks_from(line, colon + 1);
    if start == n {
        proof {
            // everything after the colon is blank, so no value field exists
            assert forall|st: int, e: int| !token_bounds(s, st, e) by {
                if token_bounds(s, st, e) {
                    let (k, l) = choose|k: int, l: int| extraction_at(s, k, st, l, e);
                    assert(k == colon as int);
                    assert(is_blank(s[st]));
                }
            }
            assert(!wf_memory_line(s));
        }
        return None;
    }
    let last = match last_nonblank(line) {
        Some(l) => l,
        None => {
            proof {
                assert(is_blank(s[start as int]));
                assert(false);
            }
            return None;
        },
    };
    proof {
        assert(last >= start) by {
            if last < start {
                assert(is_blank(s[start as int]));
            }
        }
    }
    let e = match find_char_from(line, start, ' ') {
        None => {
            proof {
                assert forall|st: int, ee: int| !token_bounds(s, st, ee) by {
                    if token_bounds(s, st, ee) {
                        let (k, l) = choose|k: int, l: int| extraction_at(s, k, st, l, ee);
                        assert(k == colon as int);
                        assert(st == start as int);
                        assert(s[ee] == ' ');
                    }
                }
                assert(!wf_memory_line(s));
            }
            return None;
        },
        Some(e) => e,
    };
    if e > last {
        proof {
            // the first space lies beyond the trimmed region: no separator
            assert forall|st: int, ee: int| !token_bounds(s, st, ee) by {
                if token_bounds(s, st, ee) {
                    let (k, l) = choose|k: int, l: int| extraction_at(s, k, st, l, ee);
                    assert(k == colon as int);
                    assert(st == start as int);
                    assert(l == last as int);
                    assert(s[ee] == ' ' && ee < e);
                }
            }
            assert(!wf_memory_line(s));
        }
        return None;
    }
    proof {
        assert(s[e as int] == ' ' && !is_blank(s[last as int]));
        assert(e < last);
        assert(extraction_at(s, colon as int, start as int, last as int, e as int));
        assert(token_bounds(s, start as int, e as int));
    }
    let r = parse_int_token(line, start, e);
    proof {
        let t = s.subrange(start as int, e as int);
        match r {
            Some(v) => {
                assert(wf_memory_line(s));
                let (st, ee) = choose|st: int, ee: int| #[trigger] token_bounds(s, st, ee);
                lemma_token_bounds_unique(s, st, ee, start as int, e as int);
                assert(memory_line_value(s) == int_token_value(t));
            },
            None => {
                assert forall|st: int, ee: int| token_bounds(s, st, ee) implies !(is_int_token(
                    s.subrange(st, ee),
                ) && i32::MIN <= int_token_value(s.subrange(st, ee)) <= i32::MAX) by {
                    lemma_token_bounds_unique(s, st, ee, start as int, e as int);
                }
                assert(!wf_memory_line(s));
            },
        }
    }
    r
}

/// `e` is the first line break at or after `i`.
pub open spec fn line_break_at(s: Seq<char>, i: int, e: int) -> bool {
    i <= e < s.len() && s[e] == '\n' && (forall|j: int| i <= j < e ==> s[j] != '\n')
}

/// Where the line starting at `i` ends: its line break, or the end of the
/// text.
pub open spec fn line_end(s: Seq<char>, i: int) -> int {
    if exists|e: int| line_break_at(s, i, e) {
        choose|e: int| line_break_at(s, i, e)
    } else {
        s.len() as int
    }
}

/// The line names a private-memory entry.
pub open spec fn starts_private(line: Seq<char>) -> bool {
    line.len() >= 7 && line[0] == 'P' && line[1] == 'r' && line[2] == 'i' && line[3] == 'v'
        && line[4] == 'a' && line[5] == 't' && line[6] == 'e'
}

/// Scans the text line by line from position `i`, adding the value of every
/// private-memory line to `acc`. Stops with Malformed at the first
/// private-memory line whose value cannot be read, and with Overflow where
/// the running total leaves the i32 range.
pub open spec fn private_scan(s: Seq<char>, i: int, acc: int) -> Result<int, SampleError>
    decreases s.len() - i,
{
    let e = line_end(s, i);
    let line = s.subrange(i, e);
    let step: Result<int, SampleError> = if starts_private(line) {
        if !wf_memory_line(line) {
            Err(SampleError::Malformed)
        } else {
            let v = memory_line_value(line);
            if i32::MIN <= acc + v <= i32::MAX {
                Ok(acc + v)
            } else {
                Err(SampleError::Overflow)
            }
        }
    } else {
        Ok(acc)
    };
    match step {
        Err(err) => Err(err),
        Ok(acc2) => if e >= s.len() {
            Ok(acc2)
        } else {
            private_scan(s, e + 1, acc2)
        },
    }
}

/// What the whole accounting text denotes: the sum of the values of its
/// private-memory lines, or the first failure.
pub open spec fn private_memory_result(s: Seq<char>) -> Result<int, SampleError> {
    private_scan(s, 0, 0)
}

/// Sums the private-memory entries of the accounting text.
pub fn private_memory_of_text(text: &str) -> (r: Result<i32, SampleError>)
    ensures
        match r {
            Ok(v) => private_memory_result(text@) == Ok::<int, SampleError>(v as int),
            Err(err) => private_memory_result(text@) == Err::<int, SampleError>(err),
        },
{
    let ghost s = text@;
    let n = text.unicode_len();
    let mut i: usize = 0;
    let mut acc: i32 = 0;
    loop
        invariant
            0 <= i <= n,
            n == s.len(),
            s == text@,
            private_scan(s, 0, 0) == private_scan(s, i as int, acc as int),
        decreases n - i,
    {
        let e = match find_char_from(text, i, '\n') {
            Some(e) => {
                proof {
                    assert(line_break_at(s, i as int, e as int));
                    let e2 = choose|e2: int| line_break_at(s, i as int, e2);
                    assert(s[e2] == '\n' && s[e as int] == '\n');
                    assert(e2 == e as int);
                    assert(line_end(s, i as int) == e as int);
                }
                e
            },
            None => {
                proof {
                    assert forall|e2: int| !line_break_at(s, i as int, e2) by {
                        if line_break_at(s, i as int, e2) {
                            assert(s[e2] == '\n');
                        }
                    }
                    assert(line_end(s, i as int) == n as int);
                }
                n
            },
        };
        let ghost line = s.subrange(i as int, e as int);
        let is_priv = e - i >= 7 && text.get_char(i) == 'P' && text.get_char(i + 1) == 'r'
            && text.get_char(i + 2) == 'i' && text.get_char(i + 3) == 'v' && text.get_char(i + 4)
            == 'a' && text.get_char(i + 5) == 't' && text.get_char(i + 6) == 'e';
        proof {
            assert(is_priv == starts_private(line));
        }
        let mut acc2 = acc;
        if is_priv {
            let line_str = text.substring_char(i, e);
            match memory_line_value_checked(line_str) {
                None => {
                    proof {
                        assert(!wf_memory_line(line));
                        assert(private_scan(s, i as int, acc as int) == Err::<int, SampleError>(
                            SampleError::Malformed,
                        ));
                    }
                    return Err(SampleError::Malformed);
                },
                Some(v) => {
                    if (v > 0 && acc > i32::MAX - v) || (v < 0 && acc < i32::MIN - v) {
                        proof {
                            assert(wf_memory_line(line));
                            assert(v as int == memory_line_value(line));
                            assert(private_scan(s, i as int, acc as int) == Err::<
                                int,
                                SampleError,
                            >(SampleError::Overflow));
                        }
                        return Err(SampleError::Overflow);
                    }
                    acc2 = acc + v;
                    proof {
                        assert(wf_memory_line(line));
                        assert(v as int == memory_line_value(line));
                    }
                },
            }
        }
        if e == n {
            proof {
                assert(private_scan(s, i as int, acc as int) == Ok::<int, SampleError>(
                    acc2 as int,
                ));
            }
            return Ok(acc2);
        }
        proof {
            assert(private_scan(s, i as int, acc as int) == private_scan(
                s,
                e as int + 1,
                acc2 as int,
            ));
        }
        i = e + 1;
        acc = acc2;
    }
}

/// Relies on fs_err::read_to_string: reads the process's memory-accounting
/// file, /proc/<pid>/smaps_rollup, as UTF-8 text; `None` when it cannot be
/// read.
#[verifier::external_body]
fn read_smaps_rollup(pid: i32) -> (r: Option<String>) {
    fs_err::read_to_string(format!("/proc/{}/smaps_rollup", pid)).ok()
}

/// Reads and sums the private resident-memory entries of the process, in
/// kilobytes. Fails with Unreadable when the process's accounting source
/// cannot be opened: a vanished process, or missing permission.
pub fn read_private_memory(pid: i32) -> (r: Result<i32, SampleError>)
    ensures
        match r {
            Ok(v) => exists|t: Seq<char>| private_memory_result(t) == Ok::<int, SampleError>(
                v as int,
            ),
            Err(err) => err == SampleError::Unreadable || exists|t: Seq<char>|
                private_memory_result(t) == Err::<int, SampleError>(err),
        },
{
    match read_smaps_rollup(pid) {
        None => Err(SampleError::Unreadable),
        Some(text) => {
            let r = private_memory_of_text(text.as_str());
            proof {
                let t = text@;
                match r {
                    Ok(v) => assert(private_memory_result(t) == Ok::<int, SampleError>(v as int)),
                    Err(err) => assert(private_memory_result(t) == Err::<int, SampleError>(err)),
                }
            }
            r
        },
    }
}

/// The text with every line break removed.
pub open spec fn strip_newlines(s: Seq<char>) -> Seq<char>
    decreases s.len(),
{
    if s.len() == 0 {
        Seq::empty()
    } else if s[0] == '\n' {
        strip_newlines(s.subrange(1, s.len() as int))
    } else {
        seq![s[0]] + strip_newlines(s.subrange(1, s.len() as int))
    }
}

/// Collects the characters of `s` other than line breaks.
fn strip_newline_chars(s: &str) -> (v: Vec<char>)
    ensures
        v@ == strip_newlines(s@),
{
    let n = s.unicode_len();
    let mut v: Vec<char> = Vec::new();
    let mut i: usize = 0;
    proof {
        assert(s@.subrange(0, n as int) =~= s@);
        assert(v@ =~= Seq::<char>::empty());
        assert(Seq::<char>::empty() + strip_newlines(s@) =~= strip_newlines(s@));
    }
    while i < n
        invariant
            0 <= i <= n,
            n == s@.len(),
            v@ + strip_newlines(s@.subrange(i as int, n as int)) == strip_newlines(s@),
        decreases n - i,
    {
        let c = s.get_char(i);
        proof {
            let rest = s@.subrange(i as int, n as int);
            assert(rest[0] == s@[i as int]);
            assert(rest.subrange(1, rest.len() as int) =~= s@.subrange(i as int + 1, n as int));
            if c != '\n' {
                assert(strip_newlines(rest) == seq![c] + strip_newlines(
                    s@.subrange(i as int + 1, n as int),
                ));
                assert(v@ + strip_newlines(rest) =~= (v@ + seq![c]) + strip_newlines(
                    s@.subrange(i as int + 1, n as int),
                ));
                assert(v@.push(c) =~= v@ + seq![c]);
            }
        }
        if c != '\n' {
            v.push(c);
        }
        i += 1;
    }
    proof {
        assert(s@.subrange(n as int, n as int) =~= Seq::<char>::empty());
        assert(v@ + Seq::<char>::empty() =~= v@);
    }
    v
}

/// Parses the characters as a signed decimal integer; `None` when they are
/// not one, or its value does not fit an i32.
fn parse_chars_i32(v: &Vec<char>) -> (r: Option<i32>)
    ensures
        match r {
            Some(x) => is_int_token(v@) && i32::MIN <= int_token_value(v@) <= i32::MAX && x as int
                == int_token_value(v@),
            None => !(is_int_token(v@) && i32::MIN <= int_token_value(v@) <= i32::MAX),
        },
{
    let ghost t = v@;
    let n = v.len();
    if n == 0 {
        return None;
    }
    let c0 = v[0];
    let neg = c0 == '-';
    let has_sign = neg || c0 == '+';
    let d_start: usize = if has_sign { 1 } else { 0 };
    if d_start == n {
        // a bare sign is not a number
        return None;
    }
    let ghost d = t.subrange(d_start as int, n as int);
    proof {
        if has_sign {
            assert(t.subrange(1, t.len() as int) =~= d);
        } else {
            assert(t =~= d);
        }
    }
    // every character must be a digit
    let mut m = d_start;
    while m < n
        invariant
            d_start <= m <= n == v@.len(),
            d_start <= 1,
            d == v@.subrange(d_start as int, n as int),
            d_start == 1 <==> (v@[0] == '-' || v@[0] == '+'),
            neg <==> v@[0] == '-',
            forall|j: int| d_start <= j < m ==> is_digit(v@[j]),
        decreases n - m,
    {
        let u = v[m] as u32;
        if u < 48 || u > 57 {
            proof {
                assert(d[(m - d_start) as int] == v@[m as int]);
                assert(!all_digits(d));
                if d_start == 1 {
                    assert(v@.subrange(1, v@.len() as int) =~= d);
                } else {
                    assert(v@ =~= d);
                }
            }
            return None;
        }
        m += 1;
    }
    assert(all_digits(d)) by {
        assert(forall|j: int| 0 <= j < d.len() ==> d[j] == v@[j + d_start] && is_digit(
            v@[j + d_start],
        ));
    }
    // accumulate; the digits read so far never exceed the whole value
    let mut acc: i64 = 0;
    let mut i = d_start;
    while i < n
        invariant
            d_start <= i <= n == v@.len(),
            d_start <= 1,
            all_digits(d),
            d == v@.subrange(d_start as int, n as int),
            d_start == 1 <==> (v@[0] == '-' || v@[0] == '+'),
            neg <==> v@[0] == '-',
            acc == digits_value(v@.subrange(d_start as int, i as int)),
            0 <= acc <= 0x8000_0000i64,
        decreases n - i,
    {
        let u = v[i] as u32;
        proof {
            assert(d[(i - d_start) as int] == v@[i as int]);
            assert(is_digit(v@[i as int]));
            let p = v@.subrange(d_start as int, i as int);
            let q = v@.subrange(d_start as int, i as int + 1);
            assert(q.drop_last() =~= p);
            assert(q.last() == v@[i as int]);
        }
        acc = acc * 10 + ((u - 48) as i64);
        if acc > 0x8000_0000i64 {
            proof {
                let w = v@;
                let q = v@.subrange(d_start as int, i as int + 1);
                assert(q =~= d.subrange(0, i - d_start + 1));
                lemma_digits_prefix_le(d, i - d_start + 1);
                assert(digits_value(d) > 0x8000_0000);
                if d_start == 1 {
                    assert(w.subrange(1, w.len() as int) =~= d);
                } else {
                    assert(w =~= d);
                }
                assert(!(i32::MIN <= int_token_value(w) <= i32::MAX));
            }
            return None;
        }
        i += 1;
    }
    proof {
        assert(v@.subrange(d_start as int, n as int) =~= d);
        assert(acc == digits_value(d));
        assert(t[0] == v@[0]);
        assert(is_int_token(t));
        if neg {
            assert(int_token_value(t) == -digits_value(d));
        } else if has_sign {
            assert(int_token_value(t) == digits_value(d));
        } else {
            assert(t =~= d);
            assert(int_token_value(t) == digits_value(d));
        }
    }
    if neg {
        Some((-acc) as i32)
    } else {
        if acc > 0x7fff_ffffi64 {
            return None;
        }
        Some(acc as i32)
    }
}

/// The number a metric pipeline's output denotes: the output text with its
/// line breaks removed, read as a decimal integer. `None` when what is left
/// is not a decimal integer, or does not fit an i32.
pub fn percentage_output_value(s: &str) -> (r: Option<i32>)
    ensures
        match r {
            Some(x) => is_int_token(strip_newlines(s@)) && i32::MIN <= int_token_value(
                strip_newlines(s@),
            ) <= i32::MAX && x as int == int_token_value(strip_newlines(s@)),
            None => !(is_int_token(strip_newlines(s@)) && i32::MIN <= int_token_value(
                strip_newlines(s@),
            ) <= i32::MAX),
        },
{
    let v = strip_newline_chars(s);
    parse_chars_i32(&v)
}

/// The value of one accounting line. A line without a colon counts as 0.
pub fn get_memory_value(line: &str) -> (r: i32)
    requires
        wf_memory_line(line@),
    ensures
        r as int == memory_line_value(line@),
{
    match memory_line_value_checked(line) {
        Some(v) => v,
        None => {
            proof {
                assert(false);
            }
            0
        },
    }
}

} // verus!
