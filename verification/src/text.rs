//! Title normalization and word-boundary phrase matching.
//!
//! A raw title is normalized into its canonical matching form: it is
//! lower-cased by the Unicode case fold, every character that is not a
//! letter or digit becomes a space, runs of spaces collapse to one, and the
//! result carries no leading or trailing space. Classifier rules then look
//! for phrases as whole words of that form.

use vstd::prelude::*;

verus! {

broadcast use vstd::string::group_string_axioms;

use vstd::std_specs::iter::IteratorSpec;

/// The lowercase mapping of one character under the Unicode case fold; one
/// character can lower to several.
pub uninterp spec fn lower_char_of(c: char) -> Seq<char>;

/// Whether a character is a Unicode letter or digit.
pub uninterp spec fn is_alnum(c: char) -> bool;

/// Relies on `char::to_lowercase`: the lowercase mapping of the character,
/// as one or more characters, a function of the character alone.
#[verifier::external_body]
fn lower_char(c: char) -> (r: Vec<char>)
    ensures
        r@ == lower_char_of(c),
{
    c.to_lowercase().collect()
}

/// Relies on `char::is_alphanumeric`: whether the character is a Unicode
/// letter or number, a function of the character alone.
#[verifier::external_body]
fn is_alnum_char(c: char) -> (r: bool)
    ensures
        r == is_alnum(c),
{
    c.is_alphanumeric()
}

/// The text lowercased: each character replaced by its case-fold mapping.
pub open spec fn lower_of(s: Seq<char>) -> Seq<char>
    decreases s.len(),
{
    if s.len() == 0 {
        Seq::empty()
    } else {
        lower_of(s.drop_last()) + lower_char_of(s.last())
    }
}

/// What the second normalization stage does to a single character: letters
/// and digits are kept, everything else becomes a space.
pub open spec fn strip_char(c: char) -> char {
    if is_alnum(c) {
        c
    } else {
        ' '
    }
}

/// The stripped-and-collapsed form of the first `i` characters of `s`: word
/// characters are appended to the running result, and a single space is
/// inserted between words exactly when the preceding character stripped to
/// a space.
pub open spec fn collapse_prefix(s: Seq<char>, i: int) -> Seq<char>
    decreases i,
{
    if i <= 0 {
        Seq::empty()
    } else {
        let prev = collapse_prefix(s, i - 1);
        let k = strip_char(s[i - 1]);
        if k == ' ' {
            prev
        } else if prev.len() == 0 {
            seq![k]
        } else if strip_char(s[i - 2]) == ' ' {
            prev.push(' ').push(k)
        } else {
            prev.push(k)
        }
    }
}

/// The text with every non-alphanumeric character replaced by a space, runs
/// of spaces collapsed to one, and no leading or trailing space.
pub open spec fn collapse_spec(s: Seq<char>) -> Seq<char> {
    collapse_prefix(s, s.len() as int)
}

/// The canonical matching form of a title: lower-cased, punctuation
/// replaced by spaces, spaces collapsed, trimmed.
pub open spec fn norm_spec(s: Seq<char>) -> Seq<char> {
    collapse_spec(lower_of(s))
}

/// The characters of a string slice, as a vector.
pub fn str_chars(s: &str) -> (v: Vec<char>)
    ensures
        v@ == s@,
{
    let mut it = s.chars();
    let mut v: Vec<char> = Vec::new();
    proof {
        assert(v@ + it.remaining() =~= s@);
    }
    loop
        invariant
            v@ + it.remaining() == s@,
            it.decrease() is Some,
        ensures
            v@ == s@,
        decreases it.decrease()->0,
    {
        match it.next() {
            Some(c) => {
                v.push(c);
                proof {
                    assert(v@ + it.remaining() =~= s@);
                }
            },
            None => {
                proof {
                    assert(v@ =~= s@);
                }
                break ;
            },
        }
    }
    v
}

/// Relies on `String::push`: appends the given character to the end of the string.
#[verifier::external_body]
fn push_char(s: &mut String, c: char)
    ensures
        final(s)@ == old(s)@.push(c),
{
    s.push(c);
}

/// A `String` holding exactly the given characters.
pub fn chars_to_string(v: &Vec<char>) -> (s: String)
    ensures
        s@ == v@,
{
    let mut s = String::new();
    let mut i: usize = 0;
    while i < v.len()
        invariant
            i <= v@.len(),
            s@ == v@.take(i as int),
        decreases v@.len() - i,
    {
        push_char(&mut s, v[i]);
        proof {
            assert(v@.take(i as int).push(v@[i as int]) =~= v@.take(i + 1));
        }
        i += 1;
    }
    proof {
        assert(v@.take(v@.len() as int) =~= v@);
    }
    s
}

fn strip_char_exec(c: char) -> (r: char)
    ensures
        r == strip_char(c),
{
    if is_alnum_char(c) {
        c
    } else {
        ' '
    }
}

/// The canonical matching form of a title: lower-cased by the Unicode case
/// fold, every character that is not a letter or digit replaced by a space,
/// runs of spaces collapsed to one, and no leading or trailing space.
pub fn normalized(s: &str) -> (r: String)
    ensures
        r@ == norm_spec(s@),
{
    let chars = str_chars(s);
    let mut low: Vec<char> = Vec::new();
    let mut i: usize = 0;
    proof {
        assert(low@ =~= lower_of(s@.take(0)));
    }
    while i < chars.len()
        invariant
            chars@ == s@,
            i <= chars@.len(),
            low@ == lower_of(s@.take(i as int)),
        decreases chars@.len() - i,
    {
        let mut folded = lower_char(chars[i]);
        proof {
            assert(s@.take(i + 1).drop_last() =~= s@.take(i as int));
            assert(s@.take(i + 1).last() == s@[i as int]);
        }
        low.append(&mut folded);
        i += 1;
    }
    proof {
        assert(s@.take(s@.len() as int) =~= s@);
    }
    let mut out: Vec<char> = Vec::new();
    let mut j: usize = 0;
    while j < low.len()
        invariant
            low@ == lower_of(s@),
            j <= low@.len(),
            out@ == collapse_prefix(low@, j as int),
        decreases low@.len() - j,
    {
        let c = strip_char_exec(low[j]);
        if c != ' ' {
            if out.len() == 0 {
                out.push(c);
            } else {
                proof {
                    lemma_collapse_prefix_nonempty_index(low@, j as int);
                }
                if strip_char_exec(low[j - 1]) == ' ' {
                    out.push(' ');
                    out.push(c);
                } else {
                    out.push(c);
                }
            }
        }
        j += 1;
    }
    chars_to_string(&out)
}

/// A nonempty collapsed prefix can only arise from at least one character.
proof fn lemma_collapse_prefix_nonempty_index(s: Seq<char>, i: int)
    requires
        collapse_prefix(s, i).len() > 0,
    ensures
        i >= 1,
{
}

/// Text in canonical form: only word characters — letters or digits other
/// than the space — and single separating spaces, starting and ending on a
/// word character.
pub open spec fn canonical(t: Seq<char>) -> bool {
    &&& forall|j: int| 0 <= j < t.len() ==> (is_alnum(#[trigger] t[j]) && t[j] != ' ') || t[j]
        == ' '
    &&& t.len() > 0 ==> t[0] != ' '
    &&& t.len() > 0 ==> t[t.len() - 1] != ' '
    &&& forall|j: int| 0 < j < t.len() ==> (#[trigger] t[j]) != ' ' || t[j - 1] != ' '
}

/// Every collapsed prefix is in canonical form.
proof fn lemma_collapse_prefix_canonical(s: Seq<char>, i: int)
    ensures
        canonical(collapse_prefix(s, i)),
    decreases i,
{
    if i <= 0 {
    } else {
        lemma_collapse_prefix_canonical(s, i - 1);
        let prev = collapse_prefix(s, i - 1);
        let k = strip_char(s[i - 1]);
        if k == ' ' {
        } else {
            assert(is_alnum(k));
        }
    }
}

/// Collapsing a prefix of canonical text reproduces that prefix, up to a
/// pending space at the cut.
proof fn lemma_collapse_prefix_of_canonical(t: Seq<char>, i: int)
    requires
        canonical(t),
        0 <= i <= t.len(),
    ensures
        collapse_prefix(t, i) == if i > 0 && t[i - 1] == ' ' {
            t.take(i - 1)
        } else {
            t.take(i)
        },
    decreases i,
{
    if i <= 0 {
    } else {
        lemma_collapse_prefix_of_canonical(t, i - 1);
        let prev = collapse_prefix(t, i - 1);
        let c = t[i - 1];
        if c == ' ' {
            if i - 1 == 0 {
            } else {
                assert(t[i - 2] != ' ');
            }
        } else {
            assert(is_alnum(c));
            assert(strip_char(c) == c);
            if prev.len() == 0 {
                if i - 1 > 0 {
                    if t[i - 2] == ' ' {
                        assert(t.take(i - 2).len() == i - 2);
                        assert(i == 2);
                        assert(t[0] != ' ');
                        assert(false);
                    } else {
                        assert(t.take(i - 1).len() == i - 1);
                        assert(false);
                    }
                }
                assert(collapse_prefix(t, i) =~= t.take(1));
            } else if strip_char(t[i - 2]) == ' ' {
                assert(t[i - 2] == ' ');
                assert(prev =~= t.take(i - 2));
                assert(prev.push(' ').push(c) =~= t.take(i));
            } else {
                assert(t[i - 2] != ' ');
                assert(prev =~= t.take(i - 1));
                assert(prev.push(c) =~= t.take(i));
            }
        }
    }
}

/// The normalizer always produces canonical text.
pub proof fn lemma_norm_spec_canonical(s: Seq<char>)
    ensures
        canonical(norm_spec(s)),
{
    lemma_collapse_prefix_canonical(lower_of(s), lower_of(s).len() as int);
}

/// Collapsing is idempotent: stripping and collapsing canonical text leaves
/// it unchanged.
pub proof fn lemma_collapse_of_canonical(t: Seq<char>)
    requires
        canonical(t),
    ensures
        collapse_spec(t) == t,
{
    lemma_collapse_prefix_of_canonical(t, t.len() as int);
    if t.len() > 0 {
        assert(t[t.len() - 1] != ' ');
    }
    assert(t.take(t.len() as int) =~= t);
}

/// Normalization is idempotent wherever the case fold fixes its output. The
/// fold produces lowercase text, and Unicode lowercases such text to
/// itself; that property of the fold itself lies beyond what the trusted
/// naming of `char::to_lowercase` states, so it stands here as the
/// hypothesis, and the collapsing stage is proved idempotent outright.
pub proof fn lemma_normalize_idempotent(s: Seq<char>)
    ensures
        lower_of(norm_spec(s)) == norm_spec(s) ==> norm_spec(norm_spec(s)) == norm_spec(s),
{
    lemma_norm_spec_canonical(s);
    if lower_of(norm_spec(s)) == norm_spec(s) {
        lemma_collapse_of_canonical(norm_spec(s));
    }
}

/// The phrase `p` stands at position `i` of `t` as whole words: the
/// characters match and each end of the occurrence lies on a word boundary.
pub open spec fn phrase_at(t: Seq<char>, p: Seq<char>, i: int) -> bool {
    &&& 0 <= i
    &&& i + p.len() <= t.len()
    &&& t.subrange(i, i + p.len()) == p
    &&& i == 0 || t[i - 1] == ' '
    &&& i + p.len() == t.len() || t[i + p.len()] == ' '
}

/// The phrase `p` occurs somewhere in `t` as whole words.
pub open spec fn phrase_in(t: Seq<char>, p: Seq<char>) -> bool {
    exists|i: int| phrase_at(t, p, i)
}

/// Some phrase of the table occurs in `t` as whole words.
pub open spec fn matches_any(t: Seq<char>, tbl: Seq<Seq<char>>) -> bool {
    exists|j: int| 0 <= j < tbl.len() && phrase_in(t, tbl[j])
}

/// The views of a table of phrase literals.
pub open spec fn views_of(ps: Seq<&str>) -> Seq<Seq<char>> {
    ps.map_values(|p: &str| p@)
}

fn phrase_at_exec(t: &Vec<char>, p: &Vec<char>, i: usize) -> (b: bool)
    requires
        i + p@.len() <= t@.len(),
    ensures
        b == phrase_at(t@, p@, i as int),
{
    let pl = p.len();
    let tl = t.len();
    if i > 0 && t[i - 1] != ' ' {
        return false;
    }
    if i + pl < tl && t[i + pl] != ' ' {
        return false;
    }
    let mut k: usize = 0;
    while k < pl
        invariant
            pl == p@.len(),
            tl == t@.len(),
            i + pl <= tl,
            k <= pl,
            forall|m: int| 0 <= m < k ==> t@[i + m] == p@[m],
        decreases pl - k,
    {
        if t[i + k] != p[k] {
            proof {
                assert(t@.subrange(i as int, i + p@.len())[k as int] == t@[i + k]);
            }
            return false;
        }
        k += 1;
    }
    proof {
        assert(t@.subrange(i as int, i + p@.len()) =~= p@);
    }
    true
}

fn phrase_in_exec(t: &Vec<char>, p: &Vec<char>) -> (b: bool)
    ensures
        b == phrase_in(t@, p@),
{
    if p.len() > t.len() {
        proof {
            assert forall|k: int| !phrase_at(t@, p@, k) by {}
        }
        return false;
    }
    let n = t.len() - p.len();
    let mut i: usize = 0;
    loop
        invariant_except_break
            p@.len() <= t@.len(),
            n == t@.len() - p@.len(),
            0 <= i <= n,
            forall|k: int| 0 <= k < i ==> !phrase_at(t@, p@, k),
        ensures
            forall|k: int| 0 <= k <= n ==> !phrase_at(t@, p@, k),
        decreases n - i,
    {
        if phrase_at_exec(t, p, i) {
            return true;
        }
        if i == n {
            break ;
        }
        i += 1;
    }
    proof {
        assert forall|k: int| !phrase_at(t@, p@, k) by {
            if 0 <= k <= n {
                assert(!phrase_at(t@, p@, k));
            }
        }
    }
    false
}

/// Whether two string slices hold the same characters.
pub fn str_eq(a: &str, b: &str) -> (r: bool)
    ensures
        r == (a@ == b@),
{
    let va = str_chars(a);
    let vb = str_chars(b);
    let n = va.len();
    if n != vb.len() {
        return false;
    }
    let mut i: usize = 0;
    while i < n
        invariant
            n == va@.len() == vb@.len(),
            va@ == a@,
            vb@ == b@,
            i <= n,
            forall|k: int| 0 <= k < i ==> va@[k] == vb@[k],
        decreases n - i,
    {
        if va[i] != vb[i] {
            return false;
        }
        i += 1;
    }
    proof {
        assert(a@ =~= b@);
    }
    true
}

/// Whether any phrase of the given table occurs in `t` as whole words.
pub fn matches_any_exec(t: &Vec<char>, tbl: &Vec<&str>) -> (b: bool)
    ensures
        b == matches_any(t@, views_of(tbl@)),
{
    let mut j: usize = 0;
    while j < tbl.len()
        invariant
            j <= tbl@.len(),
            forall|k: int| 0 <= k < j ==> !phrase_in(t@, #[trigger] views_of(tbl@)[k]),
        decreases tbl@.len() - j,
    {
        let p = str_chars(tbl[j]);
        if phrase_in_exec(t, &p) {
            proof {
                assert(views_of(tbl@)[j as int] == tbl@[j as int]@);
            }
            return true;
        }
        j += 1;
    }
    false
}

} // verus!
