//! Character-sequence helpers: copying text, decimal numerals and the
//! lexicographic order used to sort paths.

use vstd::prelude::*;

verus! {

/// The characters of `s`, in order.
pub fn chars_of(s: &str) -> (out: Vec<char>)
    ensures
        out@ == s@,
{
    let mut out: Vec<char> = Vec::new();
    for c in it: s.chars()
        invariant
            out@ == it.seq().take(it.index() as int),
            it.seq() == s@,
    {
        out.push(c);
    }
    out
}

/// The views of a list of strings, in order.
pub open spec fn texts(v: Seq<String>) -> Seq<Seq<char>> {
    v.map_values(|s: String| s@)
}

/// A copy of a list of strings.
pub fn copy_texts(v: &Vec<String>) -> (out: Vec<String>)
    ensures
        texts(out@) == texts(v@),
{
    let mut out: Vec<String> = Vec::new();
    let mut i: usize = 0;
    while i < v.len()
        invariant
            i <= v.len(),
            out.len() == i,
            forall|k: int| 0 <= k < i ==> out[k]@ == v[k]@,
        decreases v.len() - i,
    {
        out.push(v[i].clone());
        i += 1;
    }
    assert(texts(out@) =~= texts(v@));
    out
}

/// A copy of an optional string.
pub fn copy_optional_text(v: &Option<String>) -> (out: Option<String>)
    ensures
        out == *v,
{
    match v {
        Some(s) => Some(s.clone()),
        None => None,
    }
}

/// The view of an optional string.
pub open spec fn optional_text(v: Option<String>) -> Option<Seq<char>> {
    match v {
        Some(s) => Some(s@),
        None => None,
    }
}

/// The character that writes the digit `d`.
pub open spec fn digit_char(d: nat) -> char {
    if d == 0 {
        '0'
    } else if d == 1 {
        '1'
    } else if d == 2 {
        '2'
    } else if d == 3 {
        '3'
    } else if d == 4 {
        '4'
    } else if d == 5 {
        '5'
    } else if d == 6 {
        '6'
    } else if d == 7 {
        '7'
    } else if d == 8 {
        '8'
    } else {
        '9'
    }
}

/// The decimal numeral of `k`, without leading zeros.
pub open spec fn decimal(k: nat) -> Seq<char>
    decreases k,
{
    if k < 10 {
        seq![digit_char(k)]
    } else {
        decimal(k / 10).push(digit_char(k % 10))
    }
}

/// Different numbers have different numerals.
pub proof fn lemma_decimal_injective(a: nat, b: nat)
    requires
        decimal(a) == decimal(b),
    ensures
        a == b,
    decreases a,
{
    lemma_decimal_nonempty(a / 10);
    lemma_decimal_nonempty(b / 10);
    if a < 10 && b < 10 {
        assert(decimal(a)[0] == digit_char(a));
        assert(decimal(b)[0] == digit_char(b));
        assert(a == b);
    } else if a < 10 {
        assert(decimal(a).len() == 1);
        assert(decimal(b).len() == decimal(b / 10).len() + 1);
        assert(false);
    } else if b < 10 {
        assert(decimal(b).len() == 1);
        assert(decimal(a).len() == decimal(a / 10).len() + 1);
        assert(false);
    } else {
        let x = decimal(a / 10);
        let y = decimal(b / 10);
        let da = digit_char(a % 10);
        let db = digit_char(b % 10);
        assert(decimal(a) == x.push(da));
        assert(decimal(b) == y.push(db));
        assert(x.push(da).drop_last() =~= x);
        assert(y.push(db).drop_last() =~= y);
        assert(x.push(da).last() == da);
        assert(y.push(db).last() == db);
        assert(x == y);
        assert(da == db);
        lemma_decimal_injective(a / 10, b / 10);
        assert(a % 10 == b % 10);
        assert(a == b);
    }
}

/// A numeral has at least one digit.
pub proof fn lemma_decimal_nonempty(k: nat)
    ensures
        decimal(k).len() >= 1,
    decreases k,
{
    if k >= 10 {
        lemma_decimal_nonempty(k / 10);
    }
}

fn digit_text(d: u8) -> (text: &'static str)
    requires
        d < 10,
    ensures
        text@ == seq![digit_char(d as nat)],
{
    proof {
        reveal_strlit("0");
        reveal_strlit("1");
        reveal_strlit("2");
        reveal_strlit("3");
        reveal_strlit("4");
        reveal_strlit("5");
        reveal_strlit("6");
        reveal_strlit("7");
        reveal_strlit("8");
        reveal_strlit("9");
    }
    let text = if d == 0 {
        "0"
    } else if d == 1 {
        "1"
    } else if d == 2 {
        "2"
    } else if d == 3 {
        "3"
    } else if d == 4 {
        "4"
    } else if d == 5 {
        "5"
    } else if d == 6 {
        "6"
    } else if d == 7 {
        "7"
    } else if d == 8 {
        "8"
    } else {
        "9"
    };
    assert(text@ =~= seq![digit_char(d as nat)]);
    text
}

/// Appends the decimal numeral of `k` to `out`.
pub fn append_decimal(out: &mut String, k: u128)
    ensures
        final(out)@ == old(out)@ + decimal(k as nat),
    decreases k,
{
    if k >= 10 {
        append_decimal(out, k / 10);
    }
    let d: u8 = (k % 10) as u8;
    out.append(digit_text(d));
    assert(final(out)@ =~= old(out)@ + decimal(k as nat));
}

/// Strict lexicographic order on character sequences, by code point: `a`
/// is a proper prefix of `b`, or at the first position where they differ
/// `a` holds the smaller character.
pub open spec fn lex_lt(a: Seq<char>, b: Seq<char>) -> bool {
    exists|k: int| #[trigger] lex_lt_at(a, b, k)
}

/// `a` and `b` agree before position `k` and `a` is smaller there.
pub open spec fn lex_lt_at(a: Seq<char>, b: Seq<char>, k: int) -> bool {
    &&& 0 <= k <= a.len()
    &&& k < b.len()
    &&& a.take(k) == b.take(k)
    &&& (k == a.len() || (a[k] as u32) < (b[k] as u32))
}

/// How one value stands to another in a strict total order.
#[derive(Clone, Copy, Debug, PartialEq, Eq, Structural)]
pub enum Position {
    Before,
    Same,
    After,
}

/// Compares two characters by code point.
pub fn char_position(x: char, y: char) -> (p: Position)
    ensures
        p == Position::Before <==> (x as u32) < (y as u32),
        p == Position::Same <==> x == y,
        p == Position::After <==> (y as u32) < (x as u32),
{
    if x == y {
        Position::Same
    } else if x < y {
        Position::Before
    } else {
        Position::After
    }
}

/// Compares two texts lexicographically.
pub fn lex_position(a: &Vec<char>, b: &Vec<char>) -> (p: Position)
    ensures
        p == Position::Before <==> lex_lt(a@, b@),
        p == Position::Same <==> a@ == b@,
        p == Position::After <==> lex_lt(b@, a@),
{
    let mut i: usize = 0;
    while i < a.len() && i < b.len()
        invariant
            i <= a.len(),
            i <= b.len(),
            a@.take(i as int) == b@.take(i as int),
        decreases a.len() - i,
    {
        match char_position(a[i], b[i]) {
            Position::Before => {
                assert(lex_lt_at(a@, b@, i as int));
                proof {
                    lemma_lex_lt_asymmetric(a@, b@);
                }
                return Position::Before;
            },
            Position::After => {
                assert(lex_lt_at(b@, a@, i as int));
                proof {
                    lemma_lex_lt_asymmetric(b@, a@);
                }
                return Position::After;
            },
            Position::Same => {},
        }
        assert(a@.take(i + 1) =~= a@.take(i as int).push(a@[i as int]));
        assert(b@.take(i + 1) =~= b@.take(i as int).push(b@[i as int]));
        i += 1;
    }
    if i < b.len() {
        assert(lex_lt_at(a@, b@, i as int));
        proof {
            lemma_lex_lt_asymmetric(a@, b@);
        }
        Position::Before
    } else if i < a.len() {
        assert(lex_lt_at(b@, a@, i as int));
        proof {
            lemma_lex_lt_asymmetric(b@, a@);
        }
        Position::After
    } else {
        assert(a@ =~= a@.take(i as int));
        assert(b@ =~= b@.take(i as int));
        proof {
            lemma_lex_lt_irreflexive(a@);
        }
        Position::Same
    }
}

/// No text comes before itself.
pub proof fn lemma_lex_lt_irreflexive(a: Seq<char>)
    ensures
        !lex_lt(a, a),
{
    assert forall|k: int| !lex_lt_at(a, a, k) by {}
}

/// Of two texts at most one comes before the other, and then they differ.
pub proof fn lemma_lex_lt_asymmetric(a: Seq<char>, b: Seq<char>)
    requires
        lex_lt(a, b),
    ensures
        !lex_lt(b, a),
        a != b,
{
    let k = choose|k: int| lex_lt_at(a, b, k);
    assert forall|j: int| !lex_lt_at(b, a, j) by {
        if lex_lt_at(b, a, j) {
            if j < k {
                assert(a.take(k)[j] == b.take(k)[j]);
            } else if k < j {
                assert(a.take(j)[k] == b.take(j)[k]);
            }
        }
    }
    lemma_lex_lt_irreflexive(a);
}

/// Two characters are equal or one has the smaller code point.
pub proof fn lemma_char_total(x: char, y: char)
    ensures
        x == y || (x as u32) < (y as u32) || (y as u32) < (x as u32),
{
}

proof fn lemma_lex_total_from(a: Seq<char>, b: Seq<char>, i: int)
    requires
        0 <= i <= a.len(),
        i <= b.len(),
        a.take(i) == b.take(i),
    ensures
        lex_lt(a, b) || a == b || lex_lt(b, a),
    decreases a.len() - i,
{
    if i == a.len() && i == b.len() {
        assert(a =~= a.take(i));
        assert(b =~= b.take(i));
    } else if i == a.len() {
        assert(lex_lt_at(a, b, i));
    } else if i == b.len() {
        assert(lex_lt_at(b, a, i));
    } else {
        lemma_char_total(a[i], b[i]);
        if a[i] == b[i] {
            assert(a.take(i + 1) =~= a.take(i).push(a[i]));
            assert(b.take(i + 1) =~= b.take(i).push(b[i]));
            lemma_lex_total_from(a, b, i + 1);
        } else if (a[i] as u32) < (b[i] as u32) {
            assert(lex_lt_at(a, b, i));
        } else {
            assert(lex_lt_at(b, a, i));
        }
    }
}

/// Two texts are equal or one comes before the other.
pub proof fn lemma_lex_total(a: Seq<char>, b: Seq<char>)
    ensures
        lex_lt(a, b) || a == b || lex_lt(b, a),
{
    assert(a.take(0) =~= b.take(0));
    lemma_lex_total_from(a, b, 0);
}

/// The lexicographic order is transitive.
pub proof fn lemma_lex_lt_transitive(a: Seq<char>, b: Seq<char>, c: Seq<char>)
    requires
        lex_lt(a, b),
        lex_lt(b, c),
    ensures
        lex_lt(a, c),
{
    let k1 = choose|k: int| lex_lt_at(a, b, k);
    let k2 = choose|k: int| lex_lt_at(b, c, k);
    let k = if k1 <= k2 { k1 } else { k2 };
    assert(a.take(k) =~= c.take(k)) by {
        assert forall|j: int| 0 <= j < k implies a[j] == c[j] by {
            assert(a.take(k1)[j] == b.take(k1)[j]);
            assert(b.take(k2)[j] == c.take(k2)[j]);
        }
    }
    if k1 < k2 {
        assert(b.take(k2)[k1] == c.take(k2)[k1]);
    } else if k2 < k1 {
        assert(a.take(k1)[k2] == b.take(k1)[k2]);
    }
    assert(lex_lt_at(a, c, k));
}

/// Whether two texts hold the same characters.
pub fn same_text(a: &str, b: &str) -> (same: bool)
    ensures
        same == (a@ == b@),
{
    let x = chars_of(a);
    let y = chars_of(b);
    match lex_position(&x, &y) {
        Position::Same => true,
        _ => false,
    }
}

} // verus!
