use vstd::prelude::*;

verus! {

/// The characters of `s`.
pub fn chars_of(s: &str) -> (v: Vec<char>)
    ensures
        v@ == s@,
{
    let mut v: Vec<char> = Vec::new();
    for c in iter: s.chars()
        invariant
            v@ == iter.seq().take(iter.index() as int),
            iter.seq() == s@,
    {
        v.push(c);
    }
    v
}

/// The pieces of `s` between occurrences of `sep`, as `str::split` with a
/// `char` pattern gives them: one more piece than occurrences, empty
/// pieces included.
pub open spec fn split(s: Seq<char>, sep: char) -> Seq<Seq<char>>
    decreases s.len(),
{
    if s.len() == 0 {
        seq![Seq::<char>::empty()]
    } else {
        let prev = split(s.drop_last(), sep);
        if s.last() == sep {
            prev.push(Seq::<char>::empty())
        } else {
            prev.update(prev.len() - 1, prev.last().push(s.last()))
        }
    }
}

pub proof fn lemma_split_nonempty(s: Seq<char>, sep: char)
    ensures
        split(s, sep).len() >= 1,
    decreases s.len(),
{
    if s.len() > 0 {
        lemma_split_nonempty(s.drop_last(), sep);
    }
}

/// The views of a vector of character vectors.
pub open spec fn views(v: Seq<Vec<char>>) -> Seq<Seq<char>> {
    v.map_values(|x: Vec<char>| x@)
}

/// Splits `s` at every `sep`.
pub fn split_chars(s: &[char], sep: char) -> (r: Vec<Vec<char>>)
    ensures
        views(r@) == split(s@, sep),
        r.len() >= 1,
{
    let mut r: Vec<Vec<char>> = Vec::new();
    r.push(Vec::new());
    let mut i: usize = 0;
    proof {
        assert(s@.take(0) =~= Seq::<char>::empty());
        assert(views(r@) =~= seq![Seq::<char>::empty()]);
    }
    while i < s.len()
        invariant
            i <= s.len(),
            r.len() >= 1,
            views(r@) == split(s@.take(i as int), sep),
        decreases s.len() - i,
    {
        let c = s[i];
        proof {
            assert(s@.take(i + 1).drop_last() =~= s@.take(i as int));
        }
        if c == sep {
            r.push(Vec::new());
            proof {
                assert(views(r@) =~= split(s@.take(i as int), sep).push(Seq::<char>::empty()));
            }
        } else {
            let last = r.len() - 1;
            let mut piece = r[last].clone();
            piece.push(c);
            r.set(last, piece);
            proof {
                let p = split(s@.take(i as int), sep);
                assert(views(r@) =~= p.update(p.len() - 1, p.last().push(c)));
            }
        }
        i = i + 1;
    }
    proof {
        assert(s@.take(s.len() as int) =~= s@);
    }
    r
}

/// Whether `a` and `b` hold the same characters.
pub fn eq_chars(a: &[char], b: &[char]) -> (r: bool)
    ensures
        r == (a@ == b@),
{
    if a.len() != b.len() {
        return false;
    }
    let mut i: usize = 0;
    while i < a.len()
        invariant
            i <= a.len(),
            a.len() == b.len(),
            forall|j: int| 0 <= j < i ==> a@[j] == b@[j],
        decreases a.len() - i,
    {
        if a[i] != b[i] {
            return false;
        }
        i = i + 1;
    }
    proof {
        assert(a@ =~= b@);
    }
    true
}

/// Whether the characters of `a` spell `lit`.
pub fn is_key(a: &[char], lit: &str) -> (r: bool)
    ensures
        r == (a@ == lit@),
{
    let l = chars_of(lit);
    eq_chars(a, l.as_slice())
}

/// `p` is a prefix of `s`.
pub open spec fn starts_with(s: Seq<char>, p: Seq<char>) -> bool {
    s.len() >= p.len() && s.take(p.len() as int) == p
}

/// Whether `s` starts with `p`.
pub fn chars_start_with(s: &[char], p: &str) -> (r: bool)
    ensures
        r == starts_with(s@, p@),
{
    let pv = chars_of(p);
    if s.len() < pv.len() {
        return false;
    }
    let mut i: usize = 0;
    while i < pv.len()
        invariant
            i <= pv.len(),
            pv.len() <= s.len(),
            pv@ == p@,
            forall|j: int| 0 <= j < i ==> s@[j] == pv@[j],
        decreases pv.len() - i,
    {
        if s[i] != pv[i] {
            return false;
        }
        i = i + 1;
    }
    proof {
        assert(s@.take(pv.len() as int) =~= pv@);
    }
    true
}

/// The number of bytes that UTF-8 takes for `c`.
pub open spec fn utf8_len(c: char) -> int {
    if (c as u32) < 0x80 {
        1
    } else if (c as u32) < 0x800 {
        2
    } else if (c as u32) < 0x10000 {
        3
    } else {
        4
    }
}

/// What is left of `s` once its first `n` bytes of UTF-8 are cut away, as
/// `String::split_off(n)` leaves it; `None` where `n` is past the end or
/// inside a character (where `split_off` panics).
pub open spec fn after_bytes(s: Seq<char>, n: int) -> Option<Seq<char>>
    decreases s.len(),
{
    if n == 0 {
        Some(s)
    } else if s.len() == 0 || n < utf8_len(s[0]) {
        None
    } else {
        after_bytes(s.drop_first(), n - utf8_len(s[0]))
    }
}

proof fn lemma_after_bytes_step(s: Seq<char>, i: int, n: int)
    requires
        0 <= i < s.len(),
        n > 0,
        utf8_len(s[i]) <= n,
    ensures
        after_bytes(s.skip(i), n) == after_bytes(s.skip(i + 1), n - utf8_len(s[i])),
{
    assert(s.skip(i).drop_first() =~= s.skip(i + 1));
}

/// The characters of `s` after its first `n` bytes of UTF-8.
pub fn chars_after_bytes(s: &[char], n: usize) -> (r: Option<Vec<char>>)
    ensures
        match r {
            Some(v) => after_bytes(s@, n as int) == Some(v@),
            None => after_bytes(s@, n as int) is None,
        },
{
    let mut i: usize = 0;
    let mut left: usize = n;
    proof {
        assert(s@.skip(0) =~= s@);
    }
    while left > 0
        invariant
            i <= s.len(),
            left <= n,
            after_bytes(s@, n as int) == after_bytes(s@.skip(i as int), left as int),
        decreases left,
    {
        if i >= s.len() {
            return None;
        }
        let c = s[i];
        let w: usize = if (c as u32) < 0x80 {
            1
        } else if (c as u32) < 0x800 {
            2
        } else if (c as u32) < 0x10000 {
            3
        } else {
            4
        };
        if left < w {
            return None;
        }
        proof {
            lemma_after_bytes_step(s@, i as int, left as int);
        }
        left = left - w;
        i = i + 1;
    }
    let mut v: Vec<char> = Vec::new();
    let start = i;
    while i < s.len()
        invariant
            start <= i <= s.len(),
            v@ == s@.subrange(start as int, i as int),
        decreases s.len() - i,
    {
        v.push(s[i]);
        i = i + 1;
    }
    proof {
        assert(v@ =~= s@.skip(start as int));
    }
    Some(v)
}

/// `s` without its last character where that is a carriage return.
pub open spec fn strip_cr(s: Seq<char>) -> Seq<char> {
    if s.len() > 0 && s.last() == '\r' {
        s.drop_last()
    } else {
        s
    }
}

/// The lines of `s` as `str::lines` gives them: split at `'\n'`, a `'\r'`
/// just before a `'\n'` dropped, and no line after a final `'\n'`.
pub open spec fn lines(s: Seq<char>) -> Seq<Seq<char>> {
    let p = split(s, '\n');
    let q = if p.last().len() == 0 {
        p.drop_last()
    } else {
        p
    };
    Seq::new(q.len(), |i: int| if i < p.len() - 1 { strip_cr(q[i]) } else { q[i] })
}

/// The lines of `s`.
pub fn lines_of(s: &[char]) -> (r: Vec<Vec<char>>)
    ensures
        views(r@) == lines(s@),
{
    let p = split_chars(s, '\n');
    proof {
        lemma_split_nonempty(s@, '\n');
    }
    let n: usize = if p[p.len() - 1].len() == 0 {
        p.len() - 1
    } else {
        p.len()
    };
    let mut r: Vec<Vec<char>> = Vec::new();
    let mut i: usize = 0;
    while i < n
        invariant
            i <= n <= p.len(),
            n == lines(s@).len(),
            views(p@) == split(s@, '\n'),
            views(r@) == lines(s@).take(i as int),
        decreases n - i,
    {
        let piece = &p[i];
        let mut line: Vec<char> = piece.clone();
        if i < p.len() - 1 && line.len() > 0 && line[line.len() - 1] == '\r' {
            line.pop();
        }
        proof {
            assert(views(p@)[i as int] == p@[i as int]@);
            assert(line@ == lines(s@)[i as int]);
        }
        let ghost old_r = r@;
        let ghost lv = line@;
        r.push(line);
        proof {
            assert(views(r@) =~= views(old_r).push(lv));
            assert(views(r@) =~= lines(s@).take(i + 1));
        }
        i = i + 1;
    }
    proof {
        assert(lines(s@).take(n as int) =~= lines(s@));
    }
    r
}

/// The pieces of `ls` with `sep` between each two, as `[&str]::join` gives them.
pub open spec fn join(ls: Seq<Seq<char>>, sep: Seq<char>) -> Seq<char>
    decreases ls.len(),
{
    if ls.len() == 0 {
        Seq::empty()
    } else if ls.len() == 1 {
        ls[0]
    } else {
        join(ls.drop_last(), sep) + sep + ls.last()
    }
}

/// Joins the pieces `from..to` of `ls` with `sep` between each two.
pub fn join_chars(ls: &[Vec<char>], from: usize, to: usize, sep: &str) -> (r: Vec<char>)
    requires
        from <= to <= ls.len(),
    ensures
        r@ == join(views(ls@).subrange(from as int, to as int), sep@),
{
    let sv = chars_of(sep);
    let mut r: Vec<char> = Vec::new();
    let mut i: usize = from;
    proof {
        assert(views(ls@).subrange(from as int, from as int) =~= Seq::<Seq<char>>::empty());
    }
    while i < to
        invariant
            from <= i <= to <= ls.len(),
            sv@ == sep@,
            r@ == join(views(ls@).subrange(from as int, i as int), sep@),
        decreases to - i,
    {
        if i > from {
            let mut k: usize = 0;
            let ghost before = r@;
            while k < sv.len()
                invariant
                    k <= sv.len(),
                    r@ == before + sv@.take(k as int),
                decreases sv.len() - k,
            {
                r.push(sv[k]);
                k = k + 1;
                proof {
                    assert(r@ =~= before + sv@.take(k as int));
                }
            }
        }
        let ghost mid = r@;
        let piece = &ls[i];
        let mut k: usize = 0;
        while k < piece.len()
            invariant
                k <= piece.len(),
                r@ == mid + piece@.take(k as int),
            decreases piece.len() - k,
        {
            r.push(piece[k]);
            k = k + 1;
            proof {
                assert(r@ =~= mid + piece@.take(k as int));
            }
        }
        proof {
            let t = views(ls@).subrange(from as int, i + 1);
            assert(t.drop_last() =~= views(ls@).subrange(from as int, i as int));
            assert(t.last() == ls@[i as int]@);
            assert(piece@.take(piece.len() as int) =~= piece@);
            assert(sv@.take(sv.len() as int) =~= sv@);
            if i == from {
                assert(r@ =~= t[0]);
            } else {
                assert(r@ =~= join(t.drop_last(), sep@) + sep@ + t.last());
            }
        }
        i = i + 1;
    }
    r
}

/// How many lines at the start of `ls` start with `p` (`want`) or do
/// not (`!want`): what `take_while` on that test takes.
pub open spec fn leading(ls: Seq<Seq<char>>, p: Seq<char>, want: bool) -> nat
    decreases ls.len(),
{
    if ls.len() == 0 {
        0
    } else if starts_with(ls[0], p) == want {
        1 + leading(ls.drop_first(), p, want)
    } else {
        0
    }
}

proof fn lemma_leading(ls: Seq<Seq<char>>, p: Seq<char>, want: bool, k: int)
    requires
        0 <= k <= ls.len(),
        forall|j: int| 0 <= j < k ==> starts_with(#[trigger] ls[j], p) == want,
        k == ls.len() || starts_with(ls[k], p) != want,
    ensures
        leading(ls, p, want) == k,
    decreases k,
{
    if k > 0 {
        assert forall|j: int| 0 <= j < k - 1 implies starts_with(#[trigger] ls.drop_first()[j], p)
            == want by {
            assert(ls.drop_first()[j] == ls[j + 1]);
        }
        if k < ls.len() {
            assert(ls.drop_first()[k - 1] == ls[k]);
        }
        lemma_leading(ls.drop_first(), p, want, k - 1);
    }
}

/// The number of lines from `from` on that start with `p` (`want`) or do not.
pub fn count_leading(ls: &[Vec<char>], from: usize, p: &str, want: bool) -> (k: usize)
    requires
        from <= ls.len(),
    ensures
        k == leading(views(ls@).skip(from as int), p@, want),
        from + k <= ls.len(),
{
    let mut k: usize = 0;
    while from + k < ls.len()
        invariant
            from + k <= ls.len(),
            forall|j: int| 0 <= j < k ==> starts_with(#[trigger] views(ls@).skip(from as int)[j], p@) == want,
        decreases ls.len() - from - k,
    {
        let ok = chars_start_with(ls[from + k].as_slice(), p);
        if ok != want {
            proof {
                assert(views(ls@).skip(from as int)[k as int] == ls@[from + k]@);
                lemma_leading(views(ls@).skip(from as int), p@, want, k as int);
            }
            return k;
        }
        proof {
            assert(views(ls@).skip(from as int)[k as int] == ls@[from + k]@);
        }
        k = k + 1;
    }
    proof {
        lemma_leading(views(ls@).skip(from as int), p@, want, k as int);
    }
    k
}

/// `s` with every `c` taken out.
pub open spec fn without(s: Seq<char>, c: char) -> Seq<char>
    decreases s.len(),
{
    if s.len() == 0 {
        s
    } else if s.last() == c {
        without(s.drop_last(), c)
    } else {
        without(s.drop_last(), c).push(s.last())
    }
}

/// Takes every `c` out of `s`.
pub fn remove_char(s: &[char], c: char) -> (r: Vec<char>)
    ensures
        r@ == without(s@, c),
{
    let mut r: Vec<char> = Vec::new();
    let mut i: usize = 0;
    while i < s.len()
        invariant
            i <= s.len(),
            r@ == without(s@.take(i as int), c),
        decreases s.len() - i,
    {
        proof {
            assert(s@.take(i + 1).drop_last() =~= s@.take(i as int));
        }
        if s[i] != c {
            r.push(s[i]);
        }
        i = i + 1;
    }
    proof {
        assert(s@.take(s.len() as int) =~= s@);
    }
    r
}

/// Builds a `String` from characters, with `String`'s `FromIterator`
/// implementation of std. Claimed: the string holds exactly the given
/// characters, in order.
#[verifier::external_body]
pub(crate) fn string_from_chars(cs: &[char]) -> (r: String)
    ensures
        r@ == cs@,
{
    String::from_iter(cs.iter())
}

/// Why text is not an integer, in the terms of std's `IntErrorKind`.
#[derive(Debug, Clone, Copy, PartialEq, Eq, Structural)]
pub enum IntErrorKind {
    /// The text is empty.
    Empty,
    /// A character is not a decimal digit where one is expected.
    InvalidDigit,
    /// The value is above the largest value of the type.
    PosOverflow,
    /// The value is below the smallest value of the type.
    NegOverflow,
}

pub open spec fn is_digit(c: char) -> bool {
    '0' <= c && c <= '9'
}

pub open spec fn digit_value(c: char) -> int {
    (c as int) - ('0' as int)
}

/// Reads decimal digits left to right, adding (`positive`) or subtracting
/// each one after multiplying by ten; fails at the first character that
/// is not a digit, or where the value leaves `lo..=hi`.
pub open spec fn digits_fold(ds: Seq<char>, positive: bool, lo: int, hi: int) -> Result<
    int,
    IntErrorKind,
>
    decreases ds.len(),
{
    if ds.len() == 0 {
        Ok(0)
    } else {
        match digits_fold(ds.drop_last(), positive, lo, hi) {
            Err(e) => Err(e),
            Ok(v) => {
                let c = ds.last();
                if !is_digit(c) {
                    Err(IntErrorKind::InvalidDigit)
                } else {
                    let nv = if positive {
                        v * 10 + digit_value(c)
                    } else {
                        v * 10 - digit_value(c)
                    };
                    if nv > hi {
                        Err(IntErrorKind::PosOverflow)
                    } else if nv < lo {
                        Err(IntErrorKind::NegOverflow)
                    } else {
                        Ok(nv)
                    }
                }
            },
        }
    }
}

/// Decimal integer syntax as std's `from_str` reads it for an integer type
/// with values `lo..=hi`: an optional `+` (or, for a signed type, `-`)
/// followed by at least one decimal digit, nothing else.
pub open spec fn parse_int(s: Seq<char>, signed: bool, lo: int, hi: int) -> Result<int, IntErrorKind> {
    if s.len() == 0 {
        Err(IntErrorKind::Empty)
    } else if (s[0] == '+' || s[0] == '-') && s.len() == 1 {
        Err(IntErrorKind::InvalidDigit)
    } else if s[0] == '+' {
        digits_fold(s.drop_first(), true, lo, hi)
    } else if s[0] == '-' && signed {
        digits_fold(s.drop_first(), false, lo, hi)
    } else {
        digits_fold(s, true, lo, hi)
    }
}

/// `s` read as an `i32`.
pub open spec fn spec_parse_i32(s: Seq<char>) -> Result<int, IntErrorKind> {
    parse_int(s, true, i32::MIN as int, i32::MAX as int)
}

/// `s` read as a `usize`.
pub open spec fn spec_parse_usize(s: Seq<char>) -> Result<int, IntErrorKind> {
    parse_int(s, false, 0, usize::MAX as int)
}

proof fn lemma_digits_fold_err(ds: Seq<char>, k: int, positive: bool, lo: int, hi: int)
    requires
        0 <= k <= ds.len(),
        digits_fold(ds.take(k), positive, lo, hi) is Err,
    ensures
        digits_fold(ds, positive, lo, hi) == digits_fold(ds.take(k), positive, lo, hi),
    decreases ds.len(),
{
    if k == ds.len() {
        assert(ds.take(k) =~= ds);
    } else {
        assert(ds.drop_last().take(k) =~= ds.take(k));
        lemma_digits_fold_err(ds.drop_last(), k, positive, lo, hi);
    }
}

/// Reads `s` as an `i32` the way `str::parse::<i32>` does.
pub fn parse_i32(s: &[char]) -> (r: Result<i32, IntErrorKind>)
    ensures
        match r {
            Ok(v) => spec_parse_i32(s@) == Ok::<int, IntErrorKind>(v as int),
            Err(e) => spec_parse_i32(s@) == Err::<int, IntErrorKind>(e),
        },
{
    if s.len() == 0 {
        return Err(IntErrorKind::Empty);
    }
    if (s[0] == '+' || s[0] == '-') && s.len() == 1 {
        return Err(IntErrorKind::InvalidDigit);
    }
    let positive = !(s[0] == '-');
    let start: usize = if s[0] == '+' || s[0] == '-' { 1 } else { 0 };
    let ghost ds = s@.subrange(start as int, s.len() as int);
    proof {
        if start == 1 {
            assert(ds =~= s@.drop_first());
        } else {
            assert(ds =~= s@);
        }
        assert(spec_parse_i32(s@) == digits_fold(ds, positive, i32::MIN as int, i32::MAX as int));
    }
    let mut acc: i64 = 0;
    let mut i: usize = start;
    proof {
        assert(ds.take(0) =~= Seq::<char>::empty());
    }
    while i < s.len()
        invariant
            start <= i <= s.len(),
            ds == s@.subrange(start as int, s.len() as int),
            digits_fold(ds.take(i - start), positive, i32::MIN as int, i32::MAX as int)
                == Ok::<int, IntErrorKind>(acc as int),
            i32::MIN <= acc <= i32::MAX,
            spec_parse_i32(s@) == digits_fold(ds, positive, i32::MIN as int, i32::MAX as int),
        decreases s.len() - i,
    {
        let c = s[i];
        proof {
            assert(ds.take(i - start + 1).drop_last() =~= ds.take(i - start));
            assert(ds.take(i - start + 1).last() == c);
        }
        if !('0' <= c && c <= '9') {
            proof {
                lemma_digits_fold_err(ds, i - start + 1, positive, i32::MIN as int, i32::MAX as int);
            }
            return Err(IntErrorKind::InvalidDigit);
        }
        let d: i64 = (c as u32 - '0' as u32) as i64;
        let nv: i64 = if positive { acc * 10 + d } else { acc * 10 - d };
        if nv > i32::MAX as i64 {
            proof {
                lemma_digits_fold_err(ds, i - start + 1, positive, i32::MIN as int, i32::MAX as int);
            }
            return Err(IntErrorKind::PosOverflow);
        }
        if nv < i32::MIN as i64 {
            proof {
                lemma_digits_fold_err(ds, i - start + 1, positive, i32::MIN as int, i32::MAX as int);
            }
            return Err(IntErrorKind::NegOverflow);
        }
        acc = nv;
        i = i + 1;
    }
    proof {
        assert(ds.take(s.len() - start) =~= ds);
    }
    Ok(acc as i32)
}

/// Reads `s` as a `usize` the way `str::parse::<usize>` does.
pub fn parse_usize(s: &[char]) -> (r: Result<usize, IntErrorKind>)
    ensures
        match r {
            Ok(v) => spec_parse_usize(s@) == Ok::<int, IntErrorKind>(v as int),
            Err(e) => spec_parse_usize(s@) == Err::<int, IntErrorKind>(e),
        },
{
    if s.len() == 0 {
        return Err(IntErrorKind::Empty);
    }
    if (s[0] == '+' || s[0] == '-') && s.len() == 1 {
        return Err(IntErrorKind::InvalidDigit);
    }
    let start: usize = if s[0] == '+' { 1 } else { 0 };
    let ghost ds = s@.subrange(start as int, s.len() as int);
    proof {
        if start == 1 {
            assert(ds =~= s@.drop_first());
        } else {
            assert(ds =~= s@);
        }
        assert(spec_parse_usize(s@) == digits_fold(ds, true, 0, usize::MAX as int));
    }
    let mut acc: usize = 0;
    let mut i: usize = start;
    proof {
        assert(ds.take(0) =~= Seq::<char>::empty());
    }
    while i < s.len()
        invariant
            start <= i <= s.len(),
            ds == s@.subrange(start as int, s.len() as int),
            digits_fold(ds.take(i - start), true, 0, usize::MAX as int) == Ok::<int, IntErrorKind>(
                acc as int,
            ),
            spec_parse_usize(s@) == digits_fold(ds, true, 0, usize::MAX as int),
        decreases s.len() - i,
    {
        let c = s[i];
        proof {
            assert(ds.take(i - start + 1).drop_last() =~= ds.take(i - start));
            assert(ds.take(i - start + 1).last() == c);
        }
        if !('0' <= c && c <= '9') {
            proof {
                lemma_digits_fold_err(ds, i - start + 1, true, 0, usize::MAX as int);
            }
            return Err(IntErrorKind::InvalidDigit);
        }
        let d: usize = (c as u32 - '0' as u32) as usize;
        match acc.checked_mul(10) {
            None => {
                proof {
                    lemma_digits_fold_err(ds, i - start + 1, true, 0, usize::MAX as int);
                }
                return Err(IntErrorKind::PosOverflow);
            },
            Some(m) => match m.checked_add(d) {
                None => {
                    proof {
                        lemma_digits_fold_err(ds, i - start + 1, true, 0, usize::MAX as int);
                    }
                    return Err(IntErrorKind::PosOverflow);
                },
                Some(nv) => {
                    acc = nv;
                },
            },
        }
        i = i + 1;
    }
    proof {
        assert(ds.take(s.len() - start) =~= ds);
    }
    Ok(acc)
}

} // verus!
