//! Which files of a directory are source pages, in which order, and which
//! files of the slice cache are usable.

use vstd::prelude::*;

use vstd::utf8::encode_utf8;

use crate::codec::{natural_order, sort_natural};

verus! {

/// Position of the last `.` in `b`, or -1 where there is none.
pub open spec fn dot_pos(b: Seq<u8>) -> int
    decreases b.len(),
{
    if b.len() == 0 {
        -1
    } else if b.last() == 46 {
        b.len() - 1
    } else {
        dot_pos(b.drop_last())
    }
}

pub open spec fn lower_ascii(c: u8) -> u8 {
    if 65 <= c <= 90 {
        (c + 32) as u8
    } else {
        c
    }
}

pub open spec fn lowered(b: Seq<u8>) -> Seq<u8> {
    b.map_values(|c: u8| lower_ascii(c))
}

/// `png`, `jpg`, `jpeg`, `webp` or `bmp`, in any letter case.
pub open spec fn is_source_extension(e: Seq<u8>) -> bool {
    let l = lowered(e);
    ||| l == seq![112u8, 110, 103]
    ||| l == seq![106u8, 112, 103]
    ||| l == seq![106u8, 112, 101, 103]
    ||| l == seq![119u8, 101, 98, 112]
    ||| l == seq![98u8, 109, 112]
}

/// The file name has an extension (text after a last `.` that does not
/// open the name) on the allow-list.
pub open spec fn is_source_name(b: Seq<u8>) -> bool {
    dot_pos(b) > 0 && is_source_extension(b.subrange(dot_pos(b) + 1, b.len() as int))
}

pub open spec fn is_source_text(c: Seq<char>) -> bool {
    is_source_name(encode_utf8(c))
}

fn lower_byte(c: u8) -> (r: u8)
    ensures
        r == lower_ascii(c),
{
    if 65 <= c && c <= 90 {
        c + 32
    } else {
        c
    }
}

/// Whether the file `name` is a source page by its extension.
pub fn has_source_extension(name: &str) -> (r: bool)
    ensures
        r == is_source_text(name@),
{
    let b = name.as_bytes();
    let mut i: usize = b.len();
    assert(b@.subrange(0, i as int) =~= b@);
    loop
        invariant
            i <= b@.len(),
            dot_pos(b@) == dot_pos(b@.subrange(0, i as int)),
            forall|j: int| i <= j < b@.len() ==> b@[j] != 46,
        ensures
            i <= b@.len(),
            dot_pos(b@) == dot_pos(b@.subrange(0, i as int)),
            i == 0 || b@[i - 1] == 46,
        decreases i,
    {
        if i == 0 {
            break;
        }
        if b[i - 1] == 46 {
            break;
        }
        assert(b@.subrange(0, i as int).drop_last() =~= b@.subrange(0, i - 1));
        i = i - 1;
    }
    assert(i > 0 ==> b@.subrange(0, i as int).last() == b@[i - 1]);
    assert(i == 0 ==> b@.subrange(0, i as int).len() == 0);
    if i <= 1 {
        return false;
    }
    assert(dot_pos(b@) == i - 1);
    let ghost e = b@.subrange(i as int, b@.len() as int);
    let n: usize = b.len() - i;
    if n == 3 {
        let x0 = lower_byte(b[i]);
        let x1 = lower_byte(b[i + 1]);
        let x2 = lower_byte(b[i + 2]);
        assert(lowered(e) =~= seq![x0, x1, x2]);
        (x0 == 112 && x1 == 110 && x2 == 103) || (x0 == 106 && x1 == 112 && x2 == 103) || (x0 == 98
            && x1 == 109 && x2 == 112)
    } else if n == 4 {
        let x0 = lower_byte(b[i]);
        let x1 = lower_byte(b[i + 1]);
        let x2 = lower_byte(b[i + 2]);
        let x3 = lower_byte(b[i + 3]);
        assert(lowered(e) =~= seq![x0, x1, x2, x3]);
        (x0 == 106 && x1 == 112 && x2 == 101 && x3 == 103) || (x0 == 119 && x1 == 101 && x2 == 98
            && x3 == 112)
    } else {
        assert(lowered(e).len() == n);
        false
    }
}

pub open spec fn texts(v: Seq<String>) -> Seq<Seq<char>> {
    v.map_values(|s: String| s@)
}

/// The source pages among the file `names`, in natural order.
pub fn select_sources(names: &Vec<String>) -> (r: Vec<String>)
    ensures
        texts(r@) == natural_order(texts(names@).filter(|c: Seq<char>| is_source_text(c))),
{
    let ghost t = texts(names@);
    let ghost pred = |c: Seq<char>| is_source_text(c);
    let mut kept: Vec<String> = Vec::new();
    let mut i: usize = 0;
    assert(t.subrange(0, 0).filter(pred) =~= Seq::<Seq<char>>::empty()) by {
        reveal(Seq::filter);
    }
    while i < names.len()
        invariant
            t == texts(names@),
            pred == (|c: Seq<char>| is_source_text(c)),
            i <= t.len(),
            texts(kept@) == t.subrange(0, i as int).filter(pred),
        decreases t.len() - i,
    {
        let ghost before = kept@;
        let keep = has_source_extension(names[i].as_str());
        assert(t.subrange(0, i + 1).drop_last() =~= t.subrange(0, i as int));
        assert(t.subrange(0, i + 1).last() == names@[i as int]@);
        assert(t.subrange(0, i + 1).filter(pred) == if pred(names@[i as int]@) {
            t.subrange(0, i as int).filter(pred).push(names@[i as int]@)
        } else {
            t.subrange(0, i as int).filter(pred)
        }) by {
            reveal(Seq::filter);
        }
        if keep {
            kept.push(names[i].clone());
            assert(texts(kept@) =~= texts(before).push(names@[i as int]@));
        }
        i = i + 1;
    }
    assert(t.subrange(0, i as int) =~= t);
    sort_natural(&mut kept);
    kept
}

pub open spec fn is_digit(c: u8) -> bool {
    48 <= c <= 57
}

pub open spec fn digits_value(d: Seq<u8>) -> nat
    decreases d.len(),
{
    if d.len() == 0 {
        0
    } else {
        digits_value(d.drop_last()) * 10 + (d.last() - 48) as nat
    }
}

/// Decimal digits as `{}` formats a number: at least one, no leading zero.
pub open spec fn canonical_digits(d: Seq<u8>) -> bool {
    &&& d.len() > 0
    &&& forall|i: int| 0 <= i < d.len() ==> is_digit(#[trigger] d[i])
    &&& d.len() > 1 ==> d[0] != 48
}

/// `b` is the name `{k}.png` of cached slice file `k`.
pub open spec fn names_slice_file(b: Seq<u8>, k: nat) -> bool {
    let n = b.len() as int;
    &&& n > 4
    &&& b.subrange(n - 4, n) == seq![46u8, 112, 110, 103]
    &&& canonical_digits(b.subrange(0, n - 4))
    &&& digits_value(b.subrange(0, n - 4)) == k
}

proof fn lemma_digits_value_grows(d: Seq<u8>, j: int)
    requires
        0 <= j <= d.len(),
        forall|i: int| 0 <= i < d.len() ==> is_digit(#[trigger] d[i]),
    ensures
        digits_value(d.subrange(0, j)) <= digits_value(d),
    decreases d.len() - j,
{
    if j < d.len() {
        assert(d.subrange(0, j + 1).drop_last() =~= d.subrange(0, j));
        lemma_digits_value_grows(d, j + 1);
    } else {
        assert(d.subrange(0, j) =~= d);
    }
}

/// The index `k` of a cached slice file named `{k}.png`, for `k >= 1`;
/// `None` for any other name.
pub fn slice_file_index(name: &str) -> (r: Option<usize>)
    ensures
        r matches Some(k) ==> k >= 1 && names_slice_file(encode_utf8(name@), k as nat),
        r is None ==> forall|k: nat|
            1 <= k <= usize::MAX ==> !#[trigger] names_slice_file(encode_utf8(name@), k),
{
    let b = name.as_bytes();
    let n: usize = b.len();
    if n <= 4 || b[n - 4] != 46 || b[n - 3] != 112 || b[n - 2] != 110 || b[n - 1] != 103 {
        proof {
            if n > 4 {
                let suffix = b@.subrange(n - 4, n as int);
                assert(suffix[0] == b@[n - 4] && suffix[1] == b@[n - 3]);
                assert(suffix[2] == b@[n - 2] && suffix[3] == b@[n - 1]);
            }
        }
        return None;
    }
    assert(b@.subrange(n - 4, n as int) =~= seq![46u8, 112, 110, 103]);
    let ghost d = b@.subrange(0, n - 4);
    let m: usize = n - 4;
    if m > 1 && b[0] == 48 {
        assert(d[0] == 48);
        return None;
    }
    let mut v: usize = 0;
    let mut j: usize = 0;
    assert(d.subrange(0, 0) =~= Seq::<u8>::empty());
    while j < m
        invariant
            b@ == encode_utf8(name@),
            b@.len() == n,
            m == n - 4,
            m == d.len(),
            d == b@.subrange(0, m as int),
            j <= m,
            v == digits_value(d.subrange(0, j as int)),
            forall|i: int| 0 <= i < j ==> is_digit(#[trigger] d[i]),
        decreases m - j,
    {
        let c = b[j];
        assert(c == d[j as int]);
        if c < 48 || c > 57 {
            assert(!is_digit(d[j as int]));
            assert forall|k: nat|
                1 <= k <= usize::MAX implies !#[trigger] names_slice_file(b@, k) by {
                if names_slice_file(b@, k) {
                    assert(canonical_digits(d));
                    assert(is_digit(d[j as int]));
                }
            }
            return None;
        }
        let digit: usize = (c - 48) as usize;
        assert(d.subrange(0, j + 1).drop_last() =~= d.subrange(0, j as int));
        if v > (usize::MAX - digit) / 10 {
            proof {
                assert(v * 10 + digit > usize::MAX) by (nonlinear_arith)
                    requires
                        v > (usize::MAX - digit) / 10,
                        digit <= 9,
                ;
                assert forall|k: nat|
                    1 <= k <= usize::MAX implies !#[trigger] names_slice_file(b@, k) by {
                    if names_slice_file(b@, k) {
                        assert(canonical_digits(d));
                        assert(d.subrange(0, j + 1).last() == c);
                        assert(digits_value(d.subrange(0, j + 1)) == v * 10 + digit);
                        lemma_digits_value_grows(d, j + 1);
                    }
                }
            }
            return None;
        }
        v = v * 10 + digit;
        j = j + 1;
    }
    assert(d.subrange(0, j as int) =~= d);
    if v == 0 {
        return None;
    }
    Some(v)
}

pub open spec fn named_in(v: Seq<String>, upto: int, k: nat) -> bool {
    exists|j: int| 0 <= j < upto && #[trigger] names_slice_file(encode_utf8(v[j]@), k)
}

/// How many cached slice files can be used: the largest `r` such that
/// `1.png` to `{r}.png` all are among `names`. Files past the first
/// missing index are ignored.
pub fn cached_slice_count(names: &Vec<String>) -> (r: usize)
    ensures
        forall|k: nat| 1 <= k <= r ==> named_in(names@, names@.len() as int, k),
        r == names@.len() || !named_in(names@, names@.len() as int, (r + 1) as nat),
{
    let n: usize = names.len();
    let mut present: Vec<bool> = Vec::new();
    present.push(false);
    let mut k: usize = 0;
    while k < n
        invariant
            n == names@.len(),
            k <= n,
            present@.len() == k + 1,
            forall|i: int| 0 <= i <= k ==> !(#[trigger] present@[i]),
        decreases n - k,
    {
        present.push(false);
        k = k + 1;
    }
    let mut i: usize = 0;
    while i < n
        invariant
            n == names@.len(),
            i <= n,
            present@.len() == n + 1,
            forall|q: int|
                1 <= q <= n ==> (#[trigger] present@[q] <==> named_in(names@, i as int, q as nat)),
        decreases n - i,
    {
        let ghost before = present@;
        let idx = slice_file_index(names[i].as_str());
        match idx {
            Some(q) => {
                if q <= n {
                    present.set(q, true);
                }
            },
            None => {},
        }
        let ghost bi = encode_utf8(names@[i as int]@);
        assert forall|q: int|
            1 <= q <= n implies (#[trigger] present@[q] <==> named_in(names@, i + 1, q as nat)) by {
            if named_in(names@, i + 1, q as nat) {
                let j = choose|j: int|
                    0 <= j < i + 1 && #[trigger] names_slice_file(encode_utf8(names@[j]@), q as nat);
                if j < i {
                    assert(named_in(names@, i as int, q as nat));
                } else {
                    assert(names_slice_file(bi, q as nat));
                    match idx {
                        Some(qq) => {
                            assert(names_slice_file(bi, qq as nat));
                            assert(qq == q);
                        },
                        None => {
                            assert(!names_slice_file(bi, q as nat));
                        },
                    }
                }
            }
            if named_in(names@, i as int, q as nat) {
                let j = choose|j: int|
                    0 <= j < i && #[trigger] names_slice_file(encode_utf8(names@[j]@), q as nat);
                assert(0 <= j < i + 1 && names_slice_file(encode_utf8(names@[j]@), q as nat));
            }
            if present@[q] && !before[q] {
                assert(names_slice_file(encode_utf8(names@[i as int]@), q as nat));
            }
        }
        i = i + 1;
    }
    let mut r: usize = 0;
    while r < n && present[r + 1]
        invariant
            n == names@.len(),
            r <= n,
            present@.len() == n + 1,
            forall|q: int|
                1 <= q <= n ==> (#[trigger] present@[q] <==> named_in(names@, n as int, q as nat)),
            forall|q: nat| 1 <= q <= r ==> named_in(names@, n as int, q),
        decreases n - r,
    {
        r = r + 1;
    }
    r
}

} // verus!
