use vstd::prelude::*;

verus! {

/// Whether `c` separates words in a title: space, tab, line feed or carriage return.
pub open spec fn is_gap(c: char) -> bool {
    c == ' ' || c == '\t' || c == '\n' || c == '\r'
}

/// The lower-case form of an ASCII capital, and `c` itself for anything else.
pub open spec fn fold_case(c: char) -> char {
    if 'A' <= c && c <= 'Z' {
        ((c as u8) + 32) as char
    } else {
        c
    }
}

/// Whether `c` separates words in a title.
pub fn is_gap_char(c: char) -> (b: bool)
    ensures
        b == is_gap(c),
{
    c == ' ' || c == '\t' || c == '\n' || c == '\r'
}

/// Lowers an ASCII capital and leaves any other character as it is.
pub fn fold_case_char(c: char) -> (r: char)
    ensures
        r == fold_case(c),
{
    if 'A' <= c && c <= 'Z' {
        ((c as u8) + 32) as char
    } else {
        c
    }
}

/// The characters of `s`, in order.
pub fn chars_of(s: &str) -> (v: Vec<char>)
    ensures
        v@ == s@,
{
    let mut v: Vec<char> = Vec::new();
    for c in it: s.chars()
        invariant
            v@ == it.seq().take(it.index() as int),
    {
        v.push(c);
    }
    v
}

/// The canonical form of a title: ASCII capitals are lowered, every run of gap
/// characters between two words becomes one space, and gaps before the first
/// word and after the last are dropped.
pub open spec fn canonical_title(s: Seq<char>) -> Seq<char>
    decreases s.len(),
{
    if s.len() == 0 {
        Seq::empty()
    } else {
        let head = canonical_title(s.drop_last());
        let c = s.last();
        if is_gap(c) {
            head
        } else if head.len() > 0 && is_gap(s[s.len() - 2]) {
            head.push(' ').push(fold_case(c))
        } else {
            head.push(fold_case(c))
        }
    }
}

/// Whether `t` has the form of a canonical title, but for a single space
/// that may stand at its end: the only gap character is the space, no
/// ASCII capital occurs, no space stands at the beginning, and no two spaces
/// stand side by side.
pub open spec fn tidy(t: Seq<char>) -> bool {
    &&& forall|i: int| 0 <= i < t.len() ==> (is_gap(#[trigger] t[i]) ==> t[i] == ' ')
    &&& forall|i: int| 0 <= i < t.len() ==> fold_case(#[trigger] t[i]) == t[i]
    &&& t.len() > 0 ==> t[0] != ' '
    &&& forall|i: int, j: int|
        0 <= i && j == i + 1 && j < t.len() ==> !((#[trigger] t[i]) == ' ' && (#[trigger] t[j])
            == ' ')
}

/// Whether `t` has the form of a canonical title: it is tidy and does not
/// end in a space.
pub open spec fn canonical(t: Seq<char>) -> bool {
    tidy(t) && (t.len() > 0 ==> t.last() != ' ')
}

/// Folding the case of a character that is no gap gives a character that is
/// no gap and that folding leaves as it is.
pub proof fn lemma_fold_case_settles(c: char)
    requires
        !is_gap(c),
    ensures
        !is_gap(fold_case(c)),
        fold_case(fold_case(c)) == fold_case(c),
{
}

/// The canonical form of any title has the form of a canonical title.
pub proof fn lemma_canonical_title_is_canonical(s: Seq<char>)
    ensures
        canonical(canonical_title(s)),
    decreases s.len(),
{
    if s.len() > 0 {
        let head = canonical_title(s.drop_last());
        let c = s.last();
        lemma_canonical_title_is_canonical(s.drop_last());
        if !is_gap(c) {
            lemma_fold_case_settles(c);
            let t = canonical_title(s);
            if head.len() > 0 && is_gap(s[s.len() - 2]) {
                let n = head.len() as int;
                assert forall|i: int| 0 <= i < t.len() implies (is_gap(#[trigger] t[i]) ==> t[i]
                    == ' ') && fold_case(t[i]) == t[i] by {
                    if i < n {
                        assert(t[i] == head[i]);
                    }
                }
                assert forall|i: int, j: int| 0 <= i && j == i + 1 && j < t.len() implies !((
                #[trigger] t[i]) == ' ' && (#[trigger] t[j]) == ' ') by {
                    if j < n {
                        assert(t[i] == head[i] && t[j] == head[j]);
                    } else if j == n {
                        assert(t[i] == head.last());
                    }
                }
                assert(t[0] == head[0]);
            } else {
                let n = head.len() as int;
                assert forall|i: int| 0 <= i < t.len() implies (is_gap(#[trigger] t[i]) ==> t[i]
                    == ' ') && fold_case(t[i]) == t[i] by {
                    if i < n {
                        assert(t[i] == head[i]);
                    }
                }
                assert forall|i: int, j: int| 0 <= i && j == i + 1 && j < t.len() implies !((
                #[trigger] t[i]) == ' ' && (#[trigger] t[j]) == ' ') by {
                    if j < n {
                        assert(t[i] == head[i] && t[j] == head[j]);
                    }
                }
                if n > 0 {
                    assert(t[0] == head[0]);
                }
            }
        }
    }
}

/// The canonical form of a tidy title is the title itself, without the space
/// at its end if it has one.
pub proof fn lemma_tidy_title_is_kept(t: Seq<char>)
    requires
        tidy(t),
    ensures
        canonical_title(t) == if t.len() > 0 && t.last() == ' ' {
            t.drop_last()
        } else {
            t
        },
    decreases t.len(),
{
    if t.len() > 0 {
        let front = t.drop_last();
        let c = t.last();
        assert forall|i: int| 0 <= i < front.len() implies (is_gap(#[trigger] front[i])
            ==> front[i] == ' ') && fold_case(front[i]) == front[i] by {
            assert(front[i] == t[i]);
        }
        assert forall|i: int, j: int| 0 <= i && j == i + 1 && j < front.len() implies !((
        #[trigger] front[i]) == ' ' && (#[trigger] front[j]) == ' ') by {
            assert(front[i] == t[i] && front[j] == t[j]);
        }
        if front.len() > 0 {
            assert(front[0] == t[0]);
        }
        lemma_tidy_title_is_kept(front);
        assert(fold_case(t[t.len() - 1]) == c);
        assert(is_gap(t[t.len() - 1]) ==> c == ' ');
        if c == ' ' {
            assert(t.len() >= 2) by {
                assert(t[0] != ' ');
            }
            assert(!(t[t.len() - 2] == ' ' && t[t.len() - 1] == ' '));
            assert(front.last() == t[t.len() - 2]);
        } else if front.len() > 0 && front.last() == ' ' {
            assert(front.len() >= 2) by {
                assert(front[0] != ' ');
            }
            assert(front.last() == t[t.len() - 2]);
            assert(front.drop_last().push(' ') =~= front);
            assert(front.push(c) =~= t);
        } else {
            if front.len() > 0 {
                assert(front.last() == t[t.len() - 2]);
                assert(is_gap(t[t.len() - 2]) ==> t[t.len() - 2] == ' ');
            }
            assert(front.push(c) =~= t);
        }
    }
}

/// Bringing a title into its canonical form a second time changes nothing.
pub proof fn lemma_canonical_title_is_idempotent(s: Seq<char>)
    ensures
        canonical_title(canonical_title(s)) == canonical_title(s),
{
    lemma_canonical_title_is_canonical(s);
    lemma_tidy_title_is_kept(canonical_title(s));
}

/// Brings a title into its canonical form.
pub fn normalize_title(s: &str) -> (out: Vec<char>)
    ensures
        out@ == canonical_title(s@),
        canonical(out@),
{
    let chars = chars_of(s);
    let mut out: Vec<char> = Vec::new();
    let mut i: usize = 0;
    while i < chars.len()
        invariant
            i <= chars.len(),
            out@ == canonical_title(chars@.take(i as int)),
        decreases chars.len() - i,
    {
        let c = chars[i];
        proof {
            assert(chars@.take(i + 1).drop_last() =~= chars@.take(i as int));
        }
        if !is_gap_char(c) {
            if out.len() > 0 && is_gap_char(chars[i - 1]) {
                out.push(' ');
            }
            out.push(fold_case_char(c));
        }
        i += 1;
    }
    proof {
        assert(chars@.take(chars.len() as int) =~= chars@);
        lemma_canonical_title_is_canonical(s@);
    }
    out
}

/// Whether two strings hold the same characters.
pub fn same_text(a: &str, b: &str) -> (same: bool)
    ensures
        same == (a@ == b@),
{
    let x = chars_of(a);
    let y = chars_of(b);
    same_chars(&x, &y)
}

/// Whether two character vectors hold the same characters.
pub fn same_chars(x: &Vec<char>, y: &Vec<char>) -> (same: bool)
    ensures
        same == (x@ == y@),
{
    if x.len() != y.len() {
        return false;
    }
    let mut i: usize = 0;
    while i < x.len()
        invariant
            i <= x.len(),
            x.len() == y.len(),
            x@.take(i as int) == y@.take(i as int),
        decreases x.len() - i,
    {
        if x[i] != y[i] {
            return false;
        }
        proof {
            assert(x@.take(i + 1) =~= x@.take(i as int).push(x@[i as int]));
            assert(y@.take(i + 1) =~= y@.take(i as int).push(y@[i as int]));
        }
        i += 1;
    }
    proof {
        assert(x@.take(x.len() as int) =~= x@);
        assert(y@.take(y.len() as int) =~= y@);
    }
    true
}

} // verus!
