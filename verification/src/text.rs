use vstd::prelude::*;
use vstd::utf8::{decode_utf8, valid_utf8};

verus! {

/// `String::push` appends one character to the end of the string.
pub assume_specification[ String::push ](s: &mut String, ch: char)
    ensures
        final(s)@ == old(s)@.push(ch),
;

/// The characters of a string, in order.
pub fn chars_of(s: &str) -> (v: Vec<char>)
    ensures
        v@ == s@,
{
    let mut v: Vec<char> = Vec::new();
    for c in it: s.chars()
        invariant
            v@ == it.seq().subrange(0, it.index() as int),
    {
        v.push(c);
    }
    v
}

/// A string holding the given characters.
pub fn string_of(v: &[char]) -> (s: String)
    ensures
        s@ == v@,
{
    let mut s = String::new();
    let n = v.len();
    for i in 0..n
        invariant
            n == v@.len(),
            s@ == v@.subrange(0, i as int),
    {
        s.push(v[i]);
        assert(v@.subrange(0, i + 1) == v@.subrange(0, i as int).push(v@[i as int]));
    }
    assert(v@.subrange(0, n as int) == v@);
    s
}


/// Unicode `White_Space`: the characters that `char::is_whitespace` accepts.
pub open spec fn is_ws(c: char) -> bool {
    let u = c as u32;
    ||| 9 <= u <= 13
    ||| u == 32
    ||| u == 0x85
    ||| u == 0xA0
    ||| u == 0x1680
    ||| 0x2000 <= u <= 0x200A
    ||| u == 0x2028
    ||| u == 0x2029
    ||| u == 0x202F
    ||| u == 0x205F
    ||| u == 0x3000
}

/// Whether `c` is whitespace (`char::is_whitespace`).
pub fn is_whitespace(c: char) -> (r: bool)
    ensures
        r == is_ws(c),
{
    let u = c as u32;
    (9 <= u && u <= 13) || u == 32 || u == 0x85 || u == 0xA0 || u == 0x1680 || (0x2000 <= u
        && u <= 0x200A) || u == 0x2028 || u == 0x2029 || u == 0x202F || u == 0x205F || u == 0x3000
}

/// `s` with its leading whitespace removed (`str::trim_start`).
pub open spec fn trim_start(s: Seq<char>) -> Seq<char>
    decreases s.len(),
{
    if s.len() > 0 && is_ws(s[0]) {
        trim_start(s.drop_first())
    } else {
        s
    }
}

/// `s` with its trailing whitespace removed (`str::trim_end`).
pub open spec fn trim_end(s: Seq<char>) -> Seq<char>
    decreases s.len(),
{
    if s.len() > 0 && is_ws(s.last()) {
        trim_end(s.drop_last())
    } else {
        s
    }
}

/// `s` with whitespace removed at both ends (`str::trim`).
pub open spec fn trim(s: Seq<char>) -> Seq<char> {
    trim_end(trim_start(s))
}

/// Removes the whitespace at both ends of `v`.
pub fn trim_chars(v: &Vec<char>) -> (r: Vec<char>)
    ensures
        r@ == trim(v@),
{
    let n = v.len();
    let mut a: usize = 0;
    assert(v@.subrange(0, n as int) == v@);
    while a < n && is_whitespace(v[a])
        invariant
            a <= n,
            n == v@.len(),
            trim_start(v@) == trim_start(v@.subrange(a as int, n as int)),
        decreases n - a,
    {
        assert(v@.subrange(a as int, n as int).drop_first() == v@.subrange(a + 1, n as int));
        a = a + 1;
    }
    assert(trim_start(v@.subrange(a as int, n as int)) == v@.subrange(a as int, n as int));
    let mut b: usize = n;
    while b > a && is_whitespace(v[b - 1])
        invariant
            a <= b <= n,
            n == v@.len(),
            trim(v@) == trim_end(v@.subrange(a as int, b as int)),
        decreases b - a,
    {
        assert(v@.subrange(a as int, b as int).drop_last() == v@.subrange(a as int, b - 1));
        b = b - 1;
    }
    let mut r: Vec<char> = Vec::new();
    let mut i = a;
    while i < b
        invariant
            a <= i <= b <= n,
            n == v@.len(),
            r@ == v@.subrange(a as int, i as int),
        decreases b - i,
    {
        r.push(v[i]);
        assert(v@.subrange(a as int, i + 1) == v@.subrange(a as int, i as int).push(v@[i as int]));
        i = i + 1;
    }
    r
}

/// Whether `p` is a prefix of `s`.
pub open spec fn has_prefix(s: Seq<char>, p: Seq<char>) -> bool {
    p.len() <= s.len() && s.take(p.len() as int) == p
}

/// Whether `p` is a suffix of `s`.
pub open spec fn has_suffix(s: Seq<char>, p: Seq<char>) -> bool {
    p.len() <= s.len() && s.skip(s.len() - p.len()) == p
}

/// Whether two character sequences are equal.
pub fn chars_eq(a: &Vec<char>, b: &Vec<char>) -> (r: bool)
    ensures
        r == (a@ == b@),
{
    if a.len() != b.len() {
        return false;
    }
    let n = a.len();
    for i in 0..n
        invariant
            n == a@.len(),
            n == b@.len(),
            forall|j: int| 0 <= j < i ==> a@[j] == b@[j],
    {
        if a[i] != b[i] {
            return false;
        }
    }
    assert(a@ =~= b@);
    true
}

/// Whether `p` is a prefix of `s`.
pub fn starts_with_chars(s: &Vec<char>, p: &Vec<char>) -> (r: bool)
    ensures
        r == has_prefix(s@, p@),
{
    if p.len() > s.len() {
        return false;
    }
    let n = p.len();
    for i in 0..n
        invariant
            n == p@.len(),
            n <= s@.len(),
            forall|j: int| 0 <= j < i ==> s@[j] == p@[j],
    {
        if s[i] != p[i] {
            return false;
        }
    }
    assert(s@.take(n as int) =~= p@);
    true
}

/// Whether `p` is a suffix of `s`.
pub fn ends_with_chars(s: &Vec<char>, p: &Vec<char>) -> (r: bool)
    ensures
        r == has_suffix(s@, p@),
{
    if p.len() > s.len() {
        return false;
    }
    let n = p.len();
    let off = s.len() - n;
    for i in 0..n
        invariant
            n == p@.len(),
            off + n == s.len(),
            n <= s@.len(),
            forall|j: int| 0 <= j < i ==> s@[off + j] == p@[j],
    {
        if s[off + i] != p[i] {
            assert(s@.skip(off as int)[i as int] == s@[off + i]);
            return false;
        }
    }
    assert(s@.skip(off as int) =~= p@);
    true
}

/// Whether two strings hold the same characters.
pub fn str_eq(a: &str, b: &str) -> (r: bool)
    ensures
        r == (a@ == b@),
{
    chars_eq(&chars_of(a), &chars_of(b))
}


/// The pieces of `s` between occurrences of `d` (`str::split` with a character):
/// always at least one piece, empty pieces included.
pub open spec fn split(s: Seq<char>, d: char) -> Seq<Seq<char>>
    decreases s.len(),
{
    if s.len() == 0 {
        seq![Seq::<char>::empty()]
    } else {
        let p = split(s.drop_last(), d);
        if s.last() == d {
            p.push(Seq::<char>::empty())
        } else {
            p.update(p.len() - 1, p.last().push(s.last()))
        }
    }
}

/// Splitting always gives at least one piece.
pub proof fn lemma_split_nonempty(s: Seq<char>, d: char)
    ensures
        split(s, d).len() >= 1,
    decreases s.len(),
{
    if s.len() > 0 {
        lemma_split_nonempty(s.drop_last(), d);
    }
}

/// Splits `v` at every occurrence of `d`.
pub fn split_chars(v: &Vec<char>, d: char) -> (r: Vec<Vec<char>>)
    ensures
        r@.map_values(|x: Vec<char>| x@) == split(v@, d),
{
    let mut pieces: Vec<Vec<char>> = Vec::new();
    let mut cur: Vec<char> = Vec::new();
    let n = v.len();
    assert(v@.take(0) =~= Seq::<char>::empty());
    for i in 0..n
        invariant
            n == v@.len(),
            pieces@.map_values(|x: Vec<char>| x@).push(cur@) == split(v@.take(i as int), d),
    {
        let c = v[i];
        assert(v@.take(i + 1).drop_last() =~= v@.take(i as int));
        proof {
            lemma_split_nonempty(v@.take(i as int), d);
        }
        if c == d {
            let mut old: Vec<char> = Vec::new();
            std::mem::swap(&mut old, &mut cur);
            pieces.push(old);
            assert(pieces@.map_values(|x: Vec<char>| x@).push(cur@) =~= split(v@.take(i + 1), d));
        } else {
            cur.push(c);
            assert(pieces@.map_values(|x: Vec<char>| x@).push(cur@) =~= split(v@.take(i + 1), d));
        }
    }
    pieces.push(cur);
    assert(v@.take(n as int) =~= v@);
    pieces
}

/// The whitespace-separated words of `s` (`str::split_whitespace`).
pub open spec fn words(s: Seq<char>) -> Seq<Seq<char>>
    decreases s.len(),
{
    if s.len() == 0 {
        Seq::<Seq<char>>::empty()
    } else {
        let p = words(s.drop_last());
        let c = s.last();
        if is_ws(c) {
            p
        } else if s.len() >= 2 && !is_ws(s[s.len() - 2]) {
            p.update(p.len() - 1, p.last().push(c))
        } else {
            p.push(seq![c])
        }
    }
}

/// Splits `v` into its whitespace-separated words.
pub fn words_of(v: &Vec<char>) -> (r: Vec<Vec<char>>)
    ensures
        r@.map_values(|x: Vec<char>| x@) == words(v@),
{
    let mut ws: Vec<Vec<char>> = Vec::new();
    let mut cur: Vec<char> = Vec::new();
    let mut in_word = false;
    let n = v.len();
    assert(v@.take(0) =~= Seq::<char>::empty());
    for i in 0..n
        invariant
            n == v@.len(),
            in_word == (i > 0 && !is_ws(v@[i - 1])),
            in_word ==> ws@.map_values(|x: Vec<char>| x@).push(cur@) == words(v@.take(i as int)),
            !in_word ==> ws@.map_values(|x: Vec<char>| x@) == words(v@.take(i as int)),
    {
        let c = v[i];
        assert(v@.take(i + 1).drop_last() =~= v@.take(i as int));
        assert(v@.take(i + 1).last() == c);
        if is_whitespace(c) {
            if in_word {
                let mut w: Vec<char> = Vec::new();
                std::mem::swap(&mut w, &mut cur);
                ws.push(w);
            }
            in_word = false;
        } else {
            if in_word {
                assert(v@.take(i + 1)[i - 1] == v@[i - 1]);
                cur.push(c);
                assert(ws@.map_values(|x: Vec<char>| x@).push(cur@) =~= words(v@.take(i + 1)));
            } else {
                if i > 0 {
                    assert(v@.take(i + 1)[i - 1] == v@[i - 1]);
                }
                cur = Vec::new();
                cur.push(c);
                assert(ws@.map_values(|x: Vec<char>| x@).push(cur@) =~= words(v@.take(i + 1)));
            }
            in_word = true;
        }
    }
    if in_word {
        ws.push(cur);
    }
    assert(v@.take(n as int) =~= v@);
    ws
}


/// The characters held by each of a sequence of character vectors.
pub open spec fn texts(v: Seq<Vec<char>>) -> Seq<Seq<char>> {
    v.map_values(|x: Vec<char>| x@)
}

/// A line with one trailing carriage return removed.
pub open spec fn strip_cr(l: Seq<char>) -> Seq<char> {
    if l.len() > 0 && l.last() == '\r' {
        l.drop_last()
    } else {
        l
    }
}

/// The lines of `s` (`str::lines`): split at `\n`, a final line ending is optional, and
/// a line ended by `\r\n` loses the `\r`.
pub open spec fn lines(s: Seq<char>) -> Seq<Seq<char>> {
    if s.len() == 0 {
        Seq::<Seq<char>>::empty()
    } else {
        let ps = split(s, '\n');
        let ended = ps.drop_last().map_values(|l: Seq<char>| strip_cr(l));
        if s.last() == '\n' {
            ended
        } else {
            ended.push(ps.last())
        }
    }
}

/// Splits `v` into its lines.
pub fn lines_of(v: &Vec<char>) -> (r: Vec<Vec<char>>)
    ensures
        texts(r@) == lines(v@),
{
    let mut r: Vec<Vec<char>> = Vec::new();
    if v.len() == 0 {
        assert(texts(r@) =~= lines(v@));
        return r;
    }
    let ps = split_chars(v, '\n');
    proof {
        lemma_split_nonempty(v@, '\n');
    }
    let m = ps.len() - 1;
    let ghost sp = split(v@, '\n');
    for i in 0..m
        invariant
            m + 1 == ps@.len(),
            texts(ps@) == sp,
            sp == split(v@, '\n'),
            texts(r@) == sp.drop_last().take(i as int).map_values(|l: Seq<char>| strip_cr(l)),
    {
        let l = &ps[i];
        assert(l@ == sp.drop_last()[i as int]);
        let mut t: Vec<char> = Vec::new();
        let k = l.len();
        let e = if k > 0 && l[k - 1] == '\r' { k - 1 } else { k };
        for j in 0..e
            invariant
                e <= k,
                k == l@.len(),
                t@ == l@.take(j as int),
        {
            t.push(l[j]);
            assert(l@.take(j + 1) =~= l@.take(j as int).push(l@[j as int]));
        }
        assert(t@ =~= strip_cr(l@));
        let ghost before = r@;
        r.push(t);
        assert(r@ == before.push(t));
        assert(texts(r@) =~= texts(before).push(t@));
        assert(sp.drop_last().take(i + 1) =~= sp.drop_last().take(i as int).push(sp.drop_last()[i as int]));
        assert(texts(r@) =~= sp.drop_last().take(i + 1).map_values(|l: Seq<char>| strip_cr(l)));
    }
    assert(sp.drop_last().take(m as int) =~= sp.drop_last());
    if v[v.len() - 1] != '\n' {
        let last = string_chars_clone(&ps[m]);
        let ghost before = r@;
        r.push(last);
        assert(texts(r@) =~= texts(before).push(sp.last()));
    }
    r
}

fn string_chars_clone(v: &Vec<char>) -> (r: Vec<char>)
    ensures
        r@ == v@,
{
    let mut r: Vec<char> = Vec::new();
    append_chars(&mut r, v);
    assert(r@ =~= v@);
    r
}

/// The first occurrence of `d` in `s` splits it into the part before and the part after
/// (`str::split_once` with a character); `None` when `d` does not occur.
pub open spec fn split_once(s: Seq<char>, d: char) -> Option<(Seq<char>, Seq<char>)> {
    if s.contains(d) {
        let i = choose|i: int| 0 <= i < s.len() && s[i] == d && (forall|j: int| 0 <= j < i ==> s[j] != d);
        Some((s.take(i), s.skip(i + 1)))
    } else {
        None
    }
}

/// Splits `v` at the first occurrence of `d`.
pub fn split_once_chars(v: &Vec<char>, d: char) -> (r: Option<(Vec<char>, Vec<char>)>)
    ensures
        match r {
            Some((a, b)) => split_once(v@, d) == Some((a@, b@)),
            None => split_once(v@, d) is None,
        },
{
    let n = v.len();
    let mut i: usize = 0;
    while i < n && v[i] != d
        invariant
            i <= n,
            n == v@.len(),
            forall|j: int| 0 <= j < i ==> v@[j] != d,
        decreases n - i,
    {
        i = i + 1;
    }
    if i == n {
        assert(!v@.contains(d));
        return None;
    }
    assert(v@.contains(d)) by {
        assert(v@[i as int] == d);
    }
    let ghost k = choose|k: int| 0 <= k < v@.len() && v@[k] == d && (forall|j: int| 0 <= j < k ==> v@[j] != d);
    assert(k == i);
    let mut a: Vec<char> = Vec::new();
    let mut b: Vec<char> = Vec::new();
    for j in 0..i
        invariant
            i < n,
            n == v@.len(),
            a@ == v@.take(j as int),
    {
        a.push(v[j]);
        assert(v@.take(j + 1) =~= v@.take(j as int).push(v@[j as int]));
    }
    for j in i + 1..n
        invariant
            i < n,
            n == v@.len(),
            b@ == v@.subrange(i + 1, j as int),
    {
        b.push(v[j]);
        assert(v@.subrange(i + 1, j + 1) =~= v@.subrange(i + 1, j as int).push(v@[j as int]));
    }
    assert(b@ =~= v@.skip(i + 1));
    Some((a, b))
}


/// An ASCII decimal digit.
pub open spec fn is_digit(c: char) -> bool {
    48 <= (c as u32) <= 57
}

/// The value of a decimal digit character.
pub open spec fn digit_val(c: char) -> int {
    (c as u32) - 48
}

/// Whether every character of `ds` is a decimal digit.
pub open spec fn all_digits(ds: Seq<char>) -> bool {
    forall|i: int| 0 <= i < ds.len() ==> is_digit(#[trigger] ds[i])
}

/// The number that the decimal digits `ds` spell.
pub open spec fn digits_value(ds: Seq<char>) -> int
    decreases ds.len(),
{
    if ds.len() == 0 {
        0
    } else {
        10 * digits_value(ds.drop_last()) + digit_val(ds.last())
    }
}

/// What `str::parse` gives for an integer type whose values are `lo..=hi`: an optional
/// `+` (or `-` for a signed type), then at least one decimal digit, and a value in range.
pub open spec fn parse_int(s: Seq<char>, signed: bool, lo: int, hi: int) -> Option<int> {
    if s.len() == 0 {
        None
    } else {
        let neg = signed && s[0] == '-';
        let ds = if s[0] == '+' || neg {
            s.drop_first()
        } else {
            s
        };
        if ds.len() == 0 || !all_digits(ds) {
            None
        } else {
            let v = if neg {
                -digits_value(ds)
            } else {
                digits_value(ds)
            };
            if lo <= v <= hi {
                Some(v)
            } else {
                None
            }
        }
    }
}

/// Digits spell a number that is not negative.
pub proof fn lemma_digits_value_nonneg(ds: Seq<char>)
    requires
        all_digits(ds),
    ensures
        digits_value(ds) >= 0,
    decreases ds.len(),
{
    if ds.len() > 0 {
        assert(is_digit(ds[ds.len() - 1]));
        lemma_digits_value_nonneg(ds.drop_last());
    }
}

/// A prefix of digits spells at most the number the whole spells.
pub proof fn lemma_digits_value_prefix(ds: Seq<char>, k: int)
    requires
        all_digits(ds),
        0 <= k <= ds.len(),
    ensures
        digits_value(ds.take(k)) <= digits_value(ds),
    decreases ds.len(),
{
    if k < ds.len() {
        assert(is_digit(ds[ds.len() - 1]));
        assert(ds.drop_last().take(k) =~= ds.take(k));
        lemma_digits_value_prefix(ds.drop_last(), k);
        lemma_digits_value_nonneg(ds.drop_last());
    } else {
        assert(ds.take(k) =~= ds);
    }
}

/// The value of the decimal digits `v[from..]`, when they are all digits, there is at
/// least one, and the value fits in a `u64`.
fn digits_u64(v: &Vec<char>, from: usize) -> (r: Option<u64>)
    requires
        from <= v@.len(),
    ensures
        ({
            let ds = v@.skip(from as int);
            match r {
                Some(x) => ds.len() > 0 && all_digits(ds) && digits_value(ds) == x,
                None => ds.len() == 0 || !all_digits(ds) || digits_value(ds) > u64::MAX,
            }
        }),
{
    let n = v.len();
    if from == n {
        return None;
    }
    let ghost ds = v@.skip(from as int);
    let mut acc: u64 = 0;
    let mut i = from;
    assert(ds.take(0) =~= Seq::<char>::empty());
    while i < n
        invariant
            from <= i <= n,
            n == v@.len(),
            ds == v@.skip(from as int),
            all_digits(ds.take(i - from)),
            acc == digits_value(ds.take(i - from)),
        decreases n - i,
    {
        let c = v[i];
        let u = c as u32;
        assert(ds[i - from] == c);
        if u < 48 || u > 57 {
            assert(!is_digit(ds[i - from]));
            return None;
        }
        let d = (u - 48) as u64;
        assert(ds.take(i - from + 1).drop_last() =~= ds.take(i - from));
        assert(all_digits(ds.take(i - from + 1)));
        match acc.checked_mul(10) {
            Some(m) => match m.checked_add(d) {
                Some(x) => {
                    acc = x;
                },
                None => {
                    proof {
                        assert(digits_value(ds.take(i - from + 1)) > u64::MAX);
                        if all_digits(ds) {
                            lemma_digits_value_prefix(ds, i - from + 1);
                        }
                    }
                    return None;
                },
            },
            None => {
                proof {
                    lemma_digits_value_nonneg(ds.take(i - from));
                    assert(digits_value(ds.take(i - from + 1)) > u64::MAX);
                    if all_digits(ds) {
                        lemma_digits_value_prefix(ds, i - from + 1);
                    }
                }
                return None;
            },
        }
        i = i + 1;
    }
    assert(ds.take(n - from) =~= ds);
    Some(acc)
}

/// `str::parse::<u64>`.
pub fn parse_u64(v: &Vec<char>) -> (r: Option<u64>)
    ensures
        match r {
            Some(x) => parse_int(v@, false, 0, u64::MAX as int) == Some(x as int),
            None => parse_int(v@, false, 0, u64::MAX as int) is None,
        },
{
    if v.len() == 0 {
        return None;
    }
    let from: usize = if v[0] == '+' { 1 } else { 0 };
    assert(v@.skip(from as int) == (if v@[0] == '+' { v@.drop_first() } else { v@ }));
    let r = digits_u64(v, from);
    match r {
        Some(x) => {
            proof { lemma_digits_value_nonneg(v@.skip(from as int)); }
            Some(x)
        },
        None => None,
    }
}

/// `str::parse::<usize>`.
pub fn parse_usize(v: &Vec<char>) -> (r: Option<usize>)
    ensures
        match r {
            Some(x) => parse_int(v@, false, 0, usize::MAX as int) == Some(x as int),
            None => parse_int(v@, false, 0, usize::MAX as int) is None,
        },
{
    match parse_u64(v) {
        Some(x) => {
            if x <= usize::MAX as u64 {
                Some(x as usize)
            } else {
                None
            }
        },
        None => None,
    }
}

/// `str::parse::<i32>`.
pub fn parse_i32(v: &Vec<char>) -> (r: Option<i32>)
    ensures
        match r {
            Some(x) => parse_int(v@, true, i32::MIN as int, i32::MAX as int) == Some(x as int),
            None => parse_int(v@, true, i32::MIN as int, i32::MAX as int) is None,
        },
{
    if v.len() == 0 {
        return None;
    }
    let neg = v[0] == '-';
    let from: usize = if v[0] == '+' || neg { 1 } else { 0 };
    assert(v@.skip(from as int) == (if v@[0] == '+' || neg { v@.drop_first() } else { v@ }));
    match digits_u64(v, from) {
        Some(x) => {
            proof { lemma_digits_value_nonneg(v@.skip(from as int)); }
            if neg {
                if x <= 2147483648 {
                    Some((0 - (x as i64)) as i32)
                } else {
                    None
                }
            } else {
                if x <= 2147483647 {
                    Some(x as i32)
                } else {
                    None
                }
            }
        },
        None => None,
    }
}

/// The decimal digit character for `d < 10`.
pub open spec fn digit_char(d: int) -> char {
    (48 + d) as char
}

/// The decimal representation of `n`, without leading zeros.
pub open spec fn dec(n: nat) -> Seq<char>
    decreases n,
{
    if n < 10 {
        seq![digit_char(n as int)]
    } else {
        dec(n / 10).push(digit_char((n % 10) as int))
    }
}

/// The decimal representation of `i`, with a `-` for a negative number.
pub open spec fn dec_int(i: int) -> Seq<char> {
    if i < 0 {
        seq!['-'] + dec((-i) as nat)
    } else {
        dec(i as nat)
    }
}

/// The decimal representation of `n`.
pub fn dec_u64(n: u64) -> (r: Vec<char>)
    ensures
        r@ == dec(n as nat),
    decreases n,
{
    let d = ((n % 10) as u8 + 48) as char;
    if n < 10 {
        let mut r: Vec<char> = Vec::new();
        r.push(d);
        assert(r@ =~= dec(n as nat));
        r
    } else {
        let mut r = dec_u64(n / 10);
        r.push(d);
        r
    }
}

/// The decimal representation of `i`.
pub fn dec_i64(i: i64) -> (r: Vec<char>)
    ensures
        r@ == dec_int(i as int),
{
    if i < 0 {
        let m: u64 = if i == i64::MIN { 9223372036854775808u64 } else { (0 - i) as u64 };
        let ds = dec_u64(m);
        let mut r: Vec<char> = Vec::new();
        r.push('-');
        let n = ds.len();
        for j in 0..n
            invariant
                n == ds@.len(),
                r@ == seq!['-'] + ds@.take(j as int),
        {
            r.push(ds[j]);
            assert(ds@.take(j + 1) =~= ds@.take(j as int).push(ds@[j as int]));
            assert(r@ =~= seq!['-'] + ds@.take(j + 1));
        }
        assert(ds@.take(n as int) =~= ds@);
        r
    } else {
        dec_u64(i as u64)
    }
}

/// The decimal representation of `n` is non-empty digits that spell `n`.
pub proof fn lemma_dec_digits(n: nat)
    ensures
        all_digits(dec(n)),
        dec(n).len() > 0,
        digits_value(dec(n)) == n,
    decreases n,
{
    let d = (n % 10) as int;
    assert(digit_char(d) as u32 == 48 + d);
    if n >= 10 {
        lemma_dec_digits(n / 10);
        assert(dec(n).drop_last() =~= dec(n / 10));
        assert(dec(n).last() == digit_char(d));
        assert(10 * (n / 10) + n % 10 == n);
    } else {
        assert(dec(n).drop_last() =~= Seq::<char>::empty());
        assert(digits_value(Seq::<char>::empty()) == 0);
    }
}

/// Appends the characters of `w` to `r`.
pub fn append_chars(r: &mut Vec<char>, w: &Vec<char>)
    ensures
        final(r)@ == old(r)@ + w@,
{
    let n = w.len();
    let ghost r0 = r@;
    for j in 0..n
        invariant
            n == w@.len(),
            r@ == r0 + w@.take(j as int),
    {
        r.push(w[j]);
        assert(w@.take(j + 1) =~= w@.take(j as int).push(w@[j as int]));
        assert(r@ =~= r0 + w@.take(j + 1));
    }
    assert(w@.take(n as int) =~= w@);
}


/// The characters that `String::from_utf8_lossy` makes of `bytes`.
pub uninterp spec fn utf8_lossy(bytes: Seq<u8>) -> Seq<char>;

/// `String::from_utf8_lossy`: decodes `bytes` as UTF-8, each invalid sequence becoming
/// U+FFFD. Claimed of it: the result is `utf8_lossy` of the bytes, a function of the
/// bytes alone; valid UTF-8 (ASCII among it) decodes to exactly its characters; and the
/// result is empty exactly when the bytes are, as every byte either decodes or is
/// replaced. Which invalid sequences become one U+FFFD each is not stated.
#[verifier::external_body]
pub(crate) fn from_utf8_lossy(bytes: &[u8]) -> (r: String)
    ensures
        r@ == utf8_lossy(bytes@),
        valid_utf8(bytes@) ==> r@ == decode_utf8(bytes@),
        r@.len() == 0 <==> bytes@.len() == 0,
{
    String::from_utf8_lossy(bytes).into_owned()
}


/// No piece of a split holds the delimiter.
pub proof fn lemma_split_pieces_lack_delim(s: Seq<char>, d: char)
    ensures
        forall|i: int, j: int| 0 <= i < split(s, d).len() && 0 <= j < split(s, d)[i].len() ==> split(s, d)[i][j] != d,
    decreases s.len(),
{
    if s.len() > 0 {
        lemma_split_pieces_lack_delim(s.drop_last(), d);
        lemma_split_nonempty(s.drop_last(), d);
        let p = split(s.drop_last(), d);
        assert forall|i: int, j: int| 0 <= i < split(s, d).len() && 0 <= j < split(s, d)[i].len() implies split(s, d)[i][j] != d by {
            if s.last() != d && i == p.len() - 1 {
                if j < p[i].len() {
                    assert(split(s, d)[i][j] == p[i][j]);
                }
            } else if s.last() == d && i == p.len() {
            } else {
                assert(split(s, d)[i] == p[i]);
            }
        }
    }
}

}

