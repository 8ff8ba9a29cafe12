use vstd::prelude::*;

verus! {

/// The views of a sequence of strings: each string replaced by its
/// character sequence.
pub open spec fn views(ss: Seq<String>) -> Seq<Seq<char>> {
    ss.map_values(|s: String| s@)
}

/// Lexicographic order on character sequences by code point: the order in
/// which path strings are ranked when a directory listing is sorted. (For
/// UTF-8 strings, code-point order and byte order coincide.)
pub open spec fn lex_le(a: Seq<char>, b: Seq<char>) -> bool
    decreases a.len(),
{
    if a.len() == 0 {
        true
    } else if b.len() == 0 {
        false
    } else if a[0] == b[0] {
        lex_le(a.skip(1), b.skip(1))
    } else {
        (a[0] as int) < (b[0] as int)
    }
}

/// `lex_le` is total: any two character sequences are comparable.
pub proof fn lemma_lex_le_total(a: Seq<char>, b: Seq<char>)
    ensures
        lex_le(a, b) || lex_le(b, a),
    decreases a.len(),
{
    if a.len() == 0 {
    } else if b.len() == 0 {
    } else if a[0] == b[0] {
        lemma_lex_le_total(a.skip(1), b.skip(1));
    }
}

/// `lex_le` is transitive.
pub proof fn lemma_lex_le_trans(a: Seq<char>, b: Seq<char>, c: Seq<char>)
    requires
        lex_le(a, b),
        lex_le(b, c),
    ensures
        lex_le(a, c),
    decreases a.len(),
{
    if a.len() == 0 {
    } else {
        if a[0] == b[0] && b[0] == c[0] {
            lemma_lex_le_trans(a.skip(1), b.skip(1), c.skip(1));
        }
    }
}

/// `views` distributes over `push`.
pub proof fn lemma_views_push(ss: Seq<String>, x: String)
    ensures
        views(ss.push(x)) =~= views(ss).push(x@),
{
}

/// `views` distributes over `remove`.
pub proof fn lemma_views_remove(ss: Seq<String>, i: int)
    requires
        0 <= i < ss.len(),
    ensures
        views(ss.remove(i)) =~= views(ss).remove(i),
{
    assert forall|j: int| 0 <= j < ss.remove(i).len() implies views(ss.remove(i))[j] == views(
        ss,
    ).remove(i)[j] by {
        assert(ss.remove(i)[j] == if j < i {
            ss[j]
        } else {
            ss[j + 1]
        });
    }
}

/// `views` distributes over `insert`.
pub proof fn lemma_views_insert(ss: Seq<String>, i: int, x: String)
    requires
        0 <= i <= ss.len(),
    ensures
        views(ss.insert(i, x)) =~= views(ss).insert(i, x@),
{
    assert forall|j: int| 0 <= j < ss.insert(i, x).len() implies views(ss.insert(i, x))[j]
        == views(ss).insert(i, x@)[j] by {
        assert(ss.insert(i, x)[j] == if j < i {
            ss[j]
        } else if j == i {
            x
        } else {
            ss[j - 1]
        });
    }
}

/// Membership in a pushed sequence: the new element, or an old member.
pub proof fn lemma_contains_push<A>(s: Seq<A>, a: A)
    ensures
        forall|x: A| #[trigger] s.push(a).contains(x) <==> s.contains(x) || x == a,
{
    assert forall|x: A| #[trigger] s.push(a).contains(x) <==> s.contains(x) || x == a by {
        if s.contains(x) {
            let i = choose|i: int| 0 <= i < s.len() && s[i] == x;
            assert(s.push(a)[i] == x);
        }
        assert(s.push(a)[s.len() as int] == a);
        if s.push(a).contains(x) {
            let i = choose|i: int| 0 <= i < s.push(a).len() && s.push(a)[i] == x;
            if i < s.len() {
                assert(s[i] == x);
            }
        }
    }
}

/// Pushing an element that is not yet present keeps a sequence free of
/// duplicates.
pub proof fn lemma_no_dup_push<A>(s: Seq<A>, a: A)
    requires
        s.no_duplicates(),
        !s.contains(a),
    ensures
        s.push(a).no_duplicates(),
{
    assert forall|i: int, j: int|
        0 <= i < s.push(a).len() && 0 <= j < s.push(a).len() && i != j implies s.push(a)[i]
        != s.push(a)[j] by {
        if i < s.len() && j < s.len() {
        } else if i < s.len() {
            if s[i] == a {
                assert(s.contains(a));
            }
        } else if j < s.len() {
            if s[j] == a {
                assert(s.contains(a));
            }
        }
    }
}

/// Whether any string in `v` has the view of `s`.
pub fn vec_contains_str(v: &Vec<String>, s: &str) -> (r: bool)
    ensures
        r == views(v@).contains(s@),
{
    let mut i: usize = 0;
    while i < v.len()
        invariant
            i <= v@.len(),
            forall|j: int| 0 <= j < i ==> views(v@)[j] != s@,
        decreases v@.len() - i,
    {
        if str_eq(v[i].as_str(), s) {
            assert(views(v@)[i as int] == s@);
            return true;
        }
        i += 1;
    }
    false
}

/// String equality decided character by character; the result reflects
/// equality of the views.
pub fn str_eq(a: &str, b: &str) -> (r: bool)
    ensures
        r == (a@ == b@),
{
    let alen = a.unicode_len();
    let blen = b.unicode_len();
    if alen != blen {
        return false;
    }
    let mut i: usize = 0;
    while i < alen
        invariant
            i <= alen,
            alen == a@.len(),
            alen == blen,
            blen == b@.len(),
            forall|j: int| 0 <= j < i ==> a@[j] == b@[j],
        decreases alen - i,
    {
        if a.get_char(i) != b.get_char(i) {
            return false;
        }
        i += 1;
    }
    proof {
        assert(a@ =~= b@);
    }
    true
}

/// Lexicographic comparison of two strings; the result reflects `lex_le`
/// on the views.
pub fn str_le(a: &str, b: &str) -> (r: bool)
    ensures
        r == lex_le(a@, b@),
{
    let alen = a.unicode_len();
    let blen = b.unicode_len();
    let mut i: usize = 0;
    proof {
        assert(a@.skip(0) =~= a@);
        assert(b@.skip(0) =~= b@);
    }
    loop
        invariant
            i <= alen,
            i <= blen,
            alen == a@.len(),
            blen == b@.len(),
            lex_le(a@, b@) == lex_le(a@.skip(i as int), b@.skip(i as int)),
        decreases alen - i,
    {
        if i >= alen {
            return true;
        }
        if i >= blen {
            return false;
        }
        let ca = a.get_char(i);
        let cb = b.get_char(i);
        if ca != cb {
            return (ca as u32) < (cb as u32);
        }
        proof {
            assert(a@.skip(i as int).skip(1) =~= a@.skip(i + 1));
            assert(b@.skip(i as int).skip(1) =~= b@.skip(i + 1));
        }
        i += 1;
    }
}

/// An upper-case ASCII letter mapped to its lower-case form; any other
/// character is kept as it is.
pub open spec fn lower_char(c: char) -> char {
    if 'A' as int <= c as int && c as int <= 'Z' as int {
        ((c as u8) + 32) as char
    } else {
        c
    }
}

/// A character sequence with every character lowered by `lower_char`.
pub open spec fn lower_seq(s: Seq<char>) -> Seq<char> {
    s.map_values(|c: char| lower_char(c))
}

/// ASCII lower-casing of one character.
pub fn to_lower_char(c: char) -> (r: char)
    ensures
        r == lower_char(c),
{
    let cu = c as u32;
    if 65 <= cu && cu <= 90 {
        ((c as u8) + 32) as char
    } else {
        c
    }
}

} // verus!
