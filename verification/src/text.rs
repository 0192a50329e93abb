use vstd::prelude::*;

verus! {

/// The decimal digit character for `d` (`d < 10`).
pub open spec fn digit_char(d: nat) -> char {
    if d == 0 { '0' }
    else if d == 1 { '1' }
    else if d == 2 { '2' }
    else if d == 3 { '3' }
    else if d == 4 { '4' }
    else if d == 5 { '5' }
    else if d == 6 { '6' }
    else if d == 7 { '7' }
    else if d == 8 { '8' }
    else { '9' }
}

/// The lowercase hexadecimal digit character for `d` (`d < 16`).
pub open spec fn hex_char(d: nat) -> char {
    if d < 10 { digit_char(d) }
    else if d == 10 { 'a' }
    else if d == 11 { 'b' }
    else if d == 12 { 'c' }
    else if d == 13 { 'd' }
    else if d == 14 { 'e' }
    else { 'f' }
}

/// Decimal rendering of a natural number, without leading zeros.
pub open spec fn dec(n: nat) -> Seq<char>
    decreases n,
{
    if n < 10 {
        seq![digit_char(n)]
    } else {
        dec(n / 10).push(digit_char(n % 10))
    }
}

/// Lowercase hexadecimal rendering of `n` padded (or truncated) to exactly
/// `width` digits, most significant first.
pub open spec fn hex_fixed(n: nat, width: nat) -> Seq<char>
    decreases width,
{
    if width == 0 {
        Seq::empty()
    } else {
        hex_fixed(n / 16, (width - 1) as nat).push(hex_char(n % 16))
    }
}

/// Appends one character to a string.
#[verifier::external_body]
pub(crate) fn push_char(s: &mut String, c: char)
    ensures
        final(s)@ == old(s)@.push(c),
{
    s.push(c);
}

fn digit(d: u8) -> (c: char)
    requires
        d < 16,
    ensures
        c == hex_char(d as nat),
{
    match d {
        0 => '0',
        1 => '1',
        2 => '2',
        3 => '3',
        4 => '4',
        5 => '5',
        6 => '6',
        7 => '7',
        8 => '8',
        9 => '9',
        10 => 'a',
        11 => 'b',
        12 => 'c',
        13 => 'd',
        14 => 'e',
        _ => 'f',
    }
}

/// Appends the decimal rendering of `n` to `s`.
pub fn push_dec(s: &mut String, n: u128)
    ensures
        final(s)@ == old(s)@ + dec(n as nat),
    decreases n,
{
    if n < 10 {
        push_char(s, digit(n as u8));
        assert(dec(n as nat) == seq![digit_char(n as nat)]);
    } else {
        push_dec(s, n / 10);
        push_char(s, digit((n % 10) as u8));
        assert(old(s)@ + dec(n as nat) =~= old(s)@ + dec((n / 10) as nat) + seq![digit_char((n % 10) as nat)]);
    }
}

/// The decimal rendering of `n`.
pub fn dec_string(n: u128) -> (r: String)
    ensures
        r@ == dec(n as nat),
{
    let mut s = String::new();
    push_dec(&mut s, n);
    assert(s@ =~= dec(n as nat));
    s
}

/// Appends exactly `width` lowercase hexadecimal digits of `n` to `s`.
pub fn push_hex_fixed(s: &mut String, n: u64, width: usize)
    ensures
        final(s)@ == old(s)@ + hex_fixed(n as nat, width as nat),
    decreases width,
{
    if width == 0 {
        assert(old(s)@ + hex_fixed(n as nat, 0) =~= old(s)@);
    } else {
        push_hex_fixed(s, n / 16, width - 1);
        push_char(s, digit((n % 16) as u8));
        assert(old(s)@ + hex_fixed(n as nat, width as nat) =~= old(s)@ + hex_fixed((n / 16) as nat, (width - 1) as nat) + seq![hex_char((n % 16) as nat)]);
    }
}

/// Equality of two string slices by their characters.
pub fn str_eq(a: &str, b: &str) -> (r: bool)
    ensures
        r == (a@ == b@),
{
    let x = String::from_str(a);
    let y = String::from_str(b);
    x == y
}

/// Whether `s` starts with `p`.
pub open spec fn has_prefix(s: Seq<char>, p: Seq<char>) -> bool {
    p.len() <= s.len() && s.subrange(0, p.len() as int) == p
}

/// Whether the path separator `::` starts at position `i` of `s`.
pub open spec fn sep_at(s: Seq<char>, i: int) -> bool {
    0 <= i && i + 1 < s.len() && s[i] == ':' && s[i + 1] == ':'
}

/// The position of the last `::` of `s`.
pub open spec fn last_sep(s: Seq<char>) -> Option<int> {
    if exists|i: int| sep_at(s, i) {
        Some(choose|i: int| sep_at(s, i) && forall|j: int| sep_at(s, j) ==> j <= i)
    } else {
        None
    }
}

/// The position of the first `::` of `s`.
pub open spec fn first_sep(s: Seq<char>) -> Option<int> {
    if exists|i: int| sep_at(s, i) {
        Some(choose|i: int| sep_at(s, i) && forall|j: int| sep_at(s, j) ==> i <= j)
    } else {
        None
    }
}

/// Whether `s` contains the path separator `::`.
pub open spec fn has_sep(s: Seq<char>) -> bool {
    exists|i: int| sep_at(s, i)
}

/// The characters of a string slice.
pub fn chars_of(s: &str) -> (v: Vec<char>)
    ensures
        v@ == s@,
{
    let n = s.unicode_len();
    let mut v: Vec<char> = Vec::new();
    let mut i: usize = 0;
    while i < n
        invariant
            n == s@.len(),
            i <= n,
            v@ == s@.subrange(0, i as int),
        decreases n - i,
    {
        v.push(s.get_char(i));
        assert(v@ =~= s@.subrange(0, i as int + 1));
        i = i + 1;
    }
    assert(v@ =~= s@);
    v
}

/// The string made of `v[from..to]`.
pub fn string_of_range(v: &Vec<char>, from: usize, to: usize) -> (s: String)
    requires
        from <= to <= v@.len(),
    ensures
        s@ == v@.subrange(from as int, to as int),
{
    let mut s = String::new();
    let mut i: usize = from;
    while i < to
        invariant
            from <= i <= to <= v@.len(),
            s@ == v@.subrange(from as int, i as int),
        decreases to - i,
    {
        push_char(&mut s, v[i]);
        assert(s@ =~= v@.subrange(from as int, i as int + 1));
        i = i + 1;
    }
    s
}

/// Whether `s` starts with `prefix`.
pub fn starts_with(s: &str, prefix: &str) -> (r: bool)
    ensures
        r == has_prefix(s@, prefix@),
{
    let sv = chars_of(s);
    let pv = chars_of(prefix);
    if pv.len() > sv.len() {
        return false;
    }
    let mut i: usize = 0;
    while i < pv.len()
        invariant
            pv@ == prefix@,
            sv@ == s@,
            pv@.len() <= sv@.len(),
            i <= pv@.len(),
            forall|j: int| 0 <= j < i ==> sv@[j] == pv@[j],
        decreases pv.len() - i,
    {
        if sv[i] != pv[i] {
            assert(s@.subrange(0, prefix@.len() as int)[i as int] != prefix@[i as int]);
            return false;
        }
        i = i + 1;
    }
    assert(s@.subrange(0, prefix@.len() as int) =~= prefix@);
    true
}

/// The position of the last `::` of `s`.
pub fn find_last_sep(v: &Vec<char>) -> (r: Option<usize>)
    ensures
        match r {
            Some(i) => last_sep(v@) == Some(i as int) && sep_at(v@, i as int),
            None => last_sep(v@) is None,
        },
{
    let mut i: usize = v.len();
    while i >= 2
        invariant
            i <= v@.len(),
            forall|j: int| #![trigger sep_at(v@, j)] i as int - 1 <= j ==> !sep_at(v@, j),
        decreases i,
    {
        if v[i - 2] == ':' && v[i - 1] == ':' {
            let k = i - 2;
            assert(sep_at(v@, k as int));
            assert(forall|j: int| sep_at(v@, j) ==> j <= k);
            return Some(k);
        }
        assert(!sep_at(v@, i as int - 2));
        i = i - 1;
    }
    assert(forall|j: int| !sep_at(v@, j));
    None
}

/// The position of the first `::` of `s`.
pub fn find_first_sep(v: &Vec<char>) -> (r: Option<usize>)
    ensures
        match r {
            Some(i) => first_sep(v@) == Some(i as int) && sep_at(v@, i as int),
            None => first_sep(v@) is None,
        },
{
    let mut i: usize = 0;
    while i < v.len() && i + 1 < v.len()
        invariant
            i <= v@.len(),
            forall|j: int| #![trigger sep_at(v@, j)] j < i ==> !sep_at(v@, j),
        decreases v.len() - i,
    {
        if v[i] == ':' && v[i + 1] == ':' {
            assert(sep_at(v@, i as int));
            assert(forall|j: int| sep_at(v@, j) ==> i <= j);
            return Some(i);
        }
        i = i + 1;
    }
    assert(forall|j: int| !sep_at(v@, j));
    None
}

/// Splits `s` around its last `::`.
pub fn rsplit_once_sep(s: &str) -> (r: Option<(String, String)>)
    ensures
        match r {
            Some((a, b)) => last_sep(s@) is Some
                && a@ == s@.subrange(0, last_sep(s@)->0)
                && b@ == s@.subrange(last_sep(s@)->0 + 2, s@.len() as int),
            None => last_sep(s@) is None,
        },
{
    let v = chars_of(s);
    match find_last_sep(&v) {
        Some(k) => Some((string_of_range(&v, 0, k), string_of_range(&v, k + 2, v.len()))),
        None => None,
    }
}

/// Splits `s` around its first `::`.
pub fn split_once_sep(s: &str) -> (r: Option<(String, String)>)
    ensures
        match r {
            Some((a, b)) => first_sep(s@) is Some
                && a@ == s@.subrange(0, first_sep(s@)->0)
                && b@ == s@.subrange(first_sep(s@)->0 + 2, s@.len() as int),
            None => first_sep(s@) is None,
        },
{
    let v = chars_of(s);
    match find_first_sep(&v) {
        Some(k) => Some((string_of_range(&v, 0, k), string_of_range(&v, k + 2, v.len()))),
        None => None,
    }
}

/// Whether `s` contains `::`.
pub fn contains_sep(s: &str) -> (r: bool)
    ensures
        r == has_sep(s@),
{
    let v = chars_of(s);
    let r = find_first_sep(&v);
    r.is_some()
}

} // verus!
