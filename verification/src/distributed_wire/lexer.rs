//! Character-level pieces of the line protocol: whitespace, trimming, splitting into
//! words and batch pieces, and decimal numbers.

use vstd::prelude::*;
use vstd::string::*;
use vstd::std_specs::iter::IteratorSpec;

verus! {

/// Unicode white space (the characters `char::is_whitespace` accepts).
pub open spec fn is_space(c: char) -> bool {
    let u = c as u32;
    ||| 0x09 <= u <= 0x0D
    ||| u == 0x20
    ||| u == 0x85
    ||| u == 0xA0
    ||| u == 0x1680
    ||| 0x2000 <= u <= 0x200A
    ||| u == 0x2028
    ||| u == 0x2029
    ||| u == 0x202F
    ||| u == 0x205F
    ||| u == 0x3000
}

/// Whether `c` is white space.
pub fn space(c: char) -> (r: bool)
    ensures
        r == is_space(c),
{
    let u = c as u32;
    (0x09 <= u && u <= 0x0D) || u == 0x20 || u == 0x85 || u == 0xA0 || u == 0x1680 || (0x2000 <= u
        && u <= 0x200A) || u == 0x2028 || u == 0x2029 || u == 0x202F || u == 0x205F || u == 0x3000
}

/// The first index from `i` on that is not white space (or the end).
pub open spec fn skip_space(s: Seq<char>, i: int) -> int
    decreases s.len() - i,
{
    if 0 <= i < s.len() && is_space(s[i]) {
        skip_space(s, i + 1)
    } else {
        i
    }
}

/// The end of `s[lo..j]` once trailing white space is dropped.
pub open spec fn back_space(s: Seq<char>, lo: int, j: int) -> int
    decreases j - lo,
{
    if lo < j && j <= s.len() && is_space(s[j - 1]) {
        back_space(s, lo, j - 1)
    } else {
        j
    }
}

/// `s` without leading and trailing white space.
pub open spec fn trimmed(s: Seq<char>) -> Seq<char> {
    let a = skip_space(s, 0);
    s.subrange(a, back_space(s, a, s.len() as int))
}

proof fn lemma_skip_space_range(s: Seq<char>, i: int)
    requires
        0 <= i <= s.len(),
    ensures
        i <= skip_space(s, i) <= s.len(),
    decreases s.len() - i,
{
    if i < s.len() && is_space(s[i]) {
        lemma_skip_space_range(s, i + 1);
    }
}

proof fn lemma_back_space_range(s: Seq<char>, lo: int, j: int)
    requires
        0 <= lo <= j <= s.len(),
    ensures
        lo <= back_space(s, lo, j) <= j,
    decreases j - lo,
{
    if lo < j && is_space(s[j - 1]) {
        lemma_back_space_range(s, lo, j - 1);
    }
}

/// The chars of `line`.
pub fn chars_of(line: &str) -> (r: Vec<char>)
    ensures
        r@ == line@,
{
    broadcast use vstd::string::axiom_spec_iter;

    let mut out: Vec<char> = Vec::new();
    for c in iter: line.chars()
        invariant
            iter.seq() == line@,
            out@ == iter.seq().take(iter.index() as int),
    {
        proof {
            assert(iter.seq().take(iter.index() + 1) =~= out@.push(c));
        }
        out.push(c);
    }
    proof {
        assert(out@ =~= line@);
    }
    out
}

/// A copy of `s[a..b]`.
pub fn copy_range(s: &Vec<char>, a: usize, b: usize) -> (r: Vec<char>)
    requires
        a <= b <= s@.len(),
    ensures
        r@ == s@.subrange(a as int, b as int),
{
    let mut out: Vec<char> = Vec::new();
    let mut k = a;
    while k < b
        invariant
            a <= k <= b <= s@.len(),
            out@ == s@.subrange(a as int, k as int),
        decreases b - k,
    {
        out.push(s[k]);
        proof {
            assert(out@ =~= s@.subrange(a as int, k + 1));
        }
        k = k + 1;
    }
    out
}

/// `s` without leading and trailing white space.
pub fn trim(s: &Vec<char>) -> (r: Vec<char>)
    ensures
        r@ == trimmed(s@),
{
    let mut a: usize = 0;
    while a < s.len() && space(s[a])
        invariant
            a <= s@.len(),
            skip_space(s@, 0) == skip_space(s@, a as int),
        decreases s@.len() - a,
    {
        a = a + 1;
    }
    let mut b: usize = s.len();
    while a < b && space(s[b - 1])
        invariant
            a <= b <= s@.len(),
            a == skip_space(s@, 0),
            back_space(s@, a as int, s@.len() as int) == back_space(s@, a as int, b as int),
        decreases b - a,
    {
        b = b - 1;
    }
    copy_range(s, a, b)
}

/// The white-space separated words of `s` from `i` on, `cur` being the word begun before `i`.
pub open spec fn words_from(s: Seq<char>, i: int, cur: Seq<char>) -> Seq<Seq<char>>
    decreases s.len() - i,
{
    if i < 0 || i >= s.len() {
        if cur.len() > 0 {
            seq![cur]
        } else {
            Seq::empty()
        }
    } else if is_space(s[i]) {
        (if cur.len() > 0 {
            seq![cur]
        } else {
            Seq::empty()
        }) + words_from(s, i + 1, Seq::empty())
    } else {
        words_from(s, i + 1, cur.push(s[i]))
    }
}

/// The white-space separated words of `s` (what `split_whitespace` yields).
pub open spec fn words(s: Seq<char>) -> Seq<Seq<char>> {
    words_from(s, 0, Seq::empty())
}

/// The views of a vector of char vectors.
pub open spec fn views(v: Seq<Vec<char>>) -> Seq<Seq<char>> {
    v.map_values(|w: Vec<char>| w@)
}

/// The white-space separated words of `s`.
pub fn split_words(s: &Vec<char>) -> (r: Vec<Vec<char>>)
    ensures
        views(r@) == words(s@),
{
    let mut out: Vec<Vec<char>> = Vec::new();
    let mut cur: Vec<char> = Vec::new();
    let mut i: usize = 0;
    while i < s.len()
        invariant
            i <= s@.len(),
            words(s@) == views(out@) + words_from(s@, i as int, cur@),
        decreases s@.len() - i,
    {
        let c = s[i];
        if space(c) {
            if cur.len() > 0 {
                let ghost before = views(out@);
                let w = cur;
                out.push(w);
                cur = Vec::new();
                proof {
                    assert(views(out@) =~= before + seq![w@]);
                    assert(words_from(s@, i as int, w@) == seq![w@] + words_from(s@, i + 1, Seq::empty()));
                    assert(before + (seq![w@] + words_from(s@, i + 1, Seq::empty())) =~= (before + seq![w@]) + words_from(s@, i + 1, Seq::empty()));
                    assert(cur@ =~= Seq::<char>::empty());
                }
            } else {
                proof {
                    assert(cur@ =~= Seq::<char>::empty());
                    assert(Seq::<Seq<char>>::empty() + words_from(s@, i + 1, Seq::empty()) =~= words_from(s@, i + 1, Seq::empty()));
                }
            }
        } else {
            let ghost old_cur = cur@;
            cur.push(c);
            proof {
                assert(words_from(s@, i as int, old_cur) == words_from(s@, i + 1, old_cur.push(c)));
            }
        }
        i = i + 1;
    }
    if cur.len() > 0 {
        let ghost before = views(out@);
        out.push(cur);
        proof {
            assert(views(out@) =~= before + words_from(s@, i as int, cur@));
        }
    } else {
        proof {
            assert(views(out@) =~= views(out@) + words_from(s@, i as int, cur@));
        }
    }
    out
}

/// The pieces of `s` from `i` on between `|` separators, `cur` being the piece begun
/// before `i`.
pub open spec fn pieces_from(s: Seq<char>, i: int, cur: Seq<char>) -> Seq<Seq<char>>
    decreases s.len() - i,
{
    if i < 0 || i >= s.len() {
        seq![cur]
    } else if s[i] == '|' {
        seq![cur] + pieces_from(s, i + 1, Seq::empty())
    } else {
        pieces_from(s, i + 1, cur.push(s[i]))
    }
}

/// The pieces of `s` between `|` separators (what `split('|')` yields; never empty).
pub open spec fn pieces(s: Seq<char>) -> Seq<Seq<char>> {
    pieces_from(s, 0, Seq::empty())
}

/// The pieces of `s` between `|` separators.
pub fn split_pieces(s: &Vec<char>) -> (r: Vec<Vec<char>>)
    ensures
        views(r@) == pieces(s@),
{
    let mut out: Vec<Vec<char>> = Vec::new();
    let mut cur: Vec<char> = Vec::new();
    let mut i: usize = 0;
    while i < s.len()
        invariant
            i <= s@.len(),
            pieces(s@) == views(out@) + pieces_from(s@, i as int, cur@),
        decreases s@.len() - i,
    {
        let c = s[i];
        if c == '|' {
            let ghost before = views(out@);
            let w = cur;
            out.push(w);
            cur = Vec::new();
            proof {
                assert(views(out@) =~= before + seq![w@]);
            }
        } else {
            cur.push(c);
        }
        i = i + 1;
    }
    let ghost before = views(out@);
    out.push(cur);
    proof {
        assert(views(out@) =~= before + pieces_from(s@, i as int, cur@));
    }
    out
}

/// Whether `tok` is exactly `word`.
pub fn is_word(tok: &Vec<char>, word: &str) -> (r: bool)
    ensures
        r == (tok@ == word@),
{
    let w = chars_of(word);
    if tok.len() != w.len() {
        proof {
            assert(tok@.len() != word@.len());
        }
        return false;
    }
    let mut k: usize = 0;
    while k < w.len()
        invariant
            tok@.len() == w@.len(),
            w@ == word@,
            k <= w@.len(),
            forall|j: int| 0 <= j < k ==> tok@[j] == w@[j],
        decreases w@.len() - k,
    {
        if tok[k] != w[k] {
            return false;
        }
        k = k + 1;
    }
    proof {
        assert(tok@ =~= word@);
    }
    true
}

/// The value of a string of decimal digits.
pub open spec fn digits_value(s: Seq<char>) -> nat
    decreases s.len(),
{
    if s.len() == 0 {
        0
    } else {
        digits_value(s.drop_last()) * 10 + ((s.last() as u32) - 48) as nat
    }
}

/// Every char of `s` is an ASCII digit.
pub open spec fn all_digits(s: Seq<char>) -> bool {
    forall|k: int| 0 <= k < s.len() ==> 48 <= #[trigger] (s[k] as u32) <= 57
}

/// The value of `s[a..]` if it is a non-empty string of digits worth at most `max`.
pub fn digits_up_to(s: &Vec<char>, a: usize, max: u64) -> (r: Option<u64>)
    requires
        a <= s@.len(),
    ensures
        ({
            let body = s@.subrange(a as int, s@.len() as int);
            match r {
                Some(v) => body.len() > 0 && all_digits(body) && digits_value(body) <= max && v
                    == digits_value(body),
                None => body.len() == 0 || !all_digits(body) || digits_value(body) > max,
            }
        }),
{
    if a == s.len() {
        return None;
    }
    let ghost body = s@.subrange(a as int, s@.len() as int);
    let mut acc: u128 = 0;
    let mut k = a;
    while k < s.len()
        invariant
            a <= k <= s@.len(),
            body == s@.subrange(a as int, s@.len() as int),
            all_digits(s@.subrange(a as int, k as int)),
            acc as int == if digits_value(s@.subrange(a as int, k as int)) <= max {
                digits_value(s@.subrange(a as int, k as int)) as int
            } else {
                max + 1
            },
        decreases s@.len() - k,
    {
        let c = s[k];
        let d = c as u32;
        if d < 48 || d > 57 {
            proof {
                assert(!(48 <= (body[k - a] as u32) <= 57));
            }
            return None;
        }
        let ghost pre = s@.subrange(a as int, k as int);
        let ghost next = s@.subrange(a as int, k + 1);
        proof {
            assert(next.drop_last() =~= pre);
            assert(next.last() == c);
            assert(all_digits(next));
        }
        if acc > max as u128 {
            proof {
                let dv = digits_value(pre);
                assert(dv * 10 + (d - 48) > max) by (nonlinear_arith)
                    requires
                        dv > max,
                        0 <= d - 48,
                ;
            }
        } else {
            let v = acc * 10 + (d - 48) as u128;
            acc = if v > max as u128 {
                (max as u128) + 1
            } else {
                v
            };
        }
        k = k + 1;
    }
    proof {
        assert(s@.subrange(a as int, k as int) =~= body);
    }
    if acc > max as u128 {
        None
    } else {
        Some(acc as u64)
    }
}

} // verus!
