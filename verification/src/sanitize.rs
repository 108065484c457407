//! Sanitizing of artist, album and title text into path segments that are
//! safe on common filesystems: the characters `< > : " / \ | ? *` are
//! removed, a leading or trailing dot becomes an underscore, and text that
//! would vanish entirely is replaced by a single underscore.

use vstd::prelude::*;

verus! {

/// Whether a character may not appear in a path segment.
pub open spec fn forbidden(c: char) -> bool {
    c == '<' || c == '>' || c == ':' || c == '"' || c == '/' || c == '\\' || c == '|' || c == '?'
        || c == '*'
}

/// The sequence with every forbidden character removed.
pub open spec fn strip_forbidden(s: Seq<char>) -> Seq<char>
    decreases s.len(),
{
    if s.len() == 0 {
        Seq::empty()
    } else if forbidden(s.last()) {
        strip_forbidden(s.drop_last())
    } else {
        strip_forbidden(s.drop_last()).push(s.last())
    }
}

/// A leading or trailing dot replaced by an underscore.
pub open spec fn fix_edges(s: Seq<char>) -> Seq<char> {
    let t = if s.len() > 0 && s[0] == '.' {
        s.update(0, '_')
    } else {
        s
    };
    if t.len() > 0 && t.last() == '.' {
        t.update(t.len() - 1, '_')
    } else {
        t
    }
}

/// What sanitizing yields: forbidden characters stripped, edge dots fixed,
/// and a lone underscore where a non-empty input would otherwise vanish.
pub open spec fn spec_sanitize(s: Seq<char>) -> Seq<char> {
    let t = fix_edges(strip_forbidden(s));
    if t.len() == 0 && s.len() > 0 {
        seq!['_']
    } else {
        t
    }
}

/// Executable test for a forbidden character.
pub fn is_forbidden(c: char) -> (r: bool)
    ensures
        r == forbidden(c),
{
    match c {
        '<' | '>' | ':' | '"' | '/' | '\\' | '|' | '?' | '*' => true,
        _ => false,
    }
}

/// Executable sanitizer for one path segment.
pub fn sanitize(s: &str) -> (r: String)
    ensures
        r@ == spec_sanitize(s@),
{
    let n = s.unicode_len();
    let mut kept: Vec<char> = Vec::new();
    let mut i: usize = 0;
    while i < n
        invariant
            i <= n,
            n == s@.len(),
            kept@ == strip_forbidden(s@.subrange(0, i as int)),
        decreases n - i,
    {
        let c = s.get_char(i);
        proof {
            assert(s@.subrange(0, i + 1).drop_last() =~= s@.subrange(0, i as int));
        }
        if !is_forbidden(c) {
            kept.push(c);
        }
        i = i + 1;
    }
    proof {
        assert(s@.subrange(0, n as int) =~= s@);
    }
    if kept.len() == 0 {
        let mut r = String::new();
        if n > 0 {
            r.push('_');
            assert(r@ =~= seq!['_']);
        }
        return r;
    }
    if kept[0] == '.' {
        kept.set(0, '_');
    }
    let last = kept.len() - 1;
    if kept[last] == '.' {
        kept.set(last, '_');
    }
    assert(kept@ == fix_edges(strip_forbidden(s@)));
    let mut r = String::new();
    let mut j: usize = 0;
    while j < kept.len()
        invariant
            j <= kept@.len(),
            r@ == kept@.subrange(0, j as int),
        decreases kept@.len() - j,
    {
        r.push(kept[j]);
        proof {
            assert(kept@.subrange(0, j + 1) =~= kept@.subrange(0, j as int).push(kept@[j as int]));
        }
        j = j + 1;
    }
    proof {
        assert(kept@.subrange(0, kept@.len() as int) =~= kept@);
    }
    r
}

/// No forbidden character survives the strip.
pub proof fn lemma_strip_no_forbidden(s: Seq<char>)
    ensures
        forall|i: int| 0 <= i < strip_forbidden(s).len() ==> !forbidden(#[trigger] strip_forbidden(
            s,
        )[i]),
    decreases s.len(),
{
    if s.len() > 0 {
        lemma_strip_no_forbidden(s.drop_last());
        let t = strip_forbidden(s.drop_last());
        if !forbidden(s.last()) {
            assert(strip_forbidden(s) == t.push(s.last()));
            assert forall|i: int| 0 <= i < strip_forbidden(s).len() implies !forbidden(
                strip_forbidden(s)[i],
            ) by {
                if i < t.len() {
                    assert(strip_forbidden(s)[i] == t[i]);
                } else {
                    assert(strip_forbidden(s)[i] == s.last());
                }
            }
        }
    }
}

/// Stripping text that holds no forbidden character leaves it unchanged.
pub proof fn lemma_strip_clean(s: Seq<char>)
    requires
        forall|i: int| 0 <= i < s.len() ==> !forbidden(#[trigger] s[i]),
    ensures
        strip_forbidden(s) == s,
    decreases s.len(),
{
    if s.len() > 0 {
        assert(forall|i: int| 0 <= i < s.drop_last().len() ==> !forbidden(
            #[trigger] s.drop_last()[i],
        ));
        lemma_strip_clean(s.drop_last());
        if !forbidden(s.last()) {
            assert(s.drop_last().push(s.last()) =~= s);
        }
    }
}

/// Stripping keeps at least one character when some character is allowed.
pub proof fn lemma_strip_keeps_allowed(s: Seq<char>)
    requires
        exists|i: int| 0 <= i < s.len() && !forbidden(#[trigger] s[i]),
    ensures
        strip_forbidden(s).len() > 0,
    decreases s.len(),
{
    if s.len() > 0 && forbidden(s.last()) {
        let i = choose|i: int| 0 <= i < s.len() && !forbidden(#[trigger] s[i]);
        assert(s.drop_last()[i] == s[i]);
        lemma_strip_keeps_allowed(s.drop_last());
    }
}

/// The sanitized text never holds a forbidden character, never starts or
/// ends with a dot, and is empty only when the input was empty.
pub proof fn lemma_sanitize_safe(s: Seq<char>)
    ensures
        forall|i: int| 0 <= i < spec_sanitize(s).len() ==> !forbidden(#[trigger] spec_sanitize(
            s,
        )[i]),
        spec_sanitize(s).len() > 0 ==> spec_sanitize(s)[0] != '.' && spec_sanitize(s).last()
            != '.',
        s.len() > 0 ==> spec_sanitize(s).len() > 0,
{
    lemma_strip_no_forbidden(s);
}

/// Sanitizing is idempotent: a second pass changes nothing.
pub proof fn lemma_sanitize_idempotent(s: Seq<char>)
    ensures
        spec_sanitize(spec_sanitize(s)) == spec_sanitize(s),
{
    let r = spec_sanitize(s);
    lemma_sanitize_safe(s);
    if r.len() == 0 {
        assert(s.len() == 0);
        assert(r =~= Seq::<char>::empty());
        assert(spec_sanitize(r) =~= r);
    } else {
        lemma_strip_clean(r);
        assert(fix_edges(r) == r);
        assert(spec_sanitize(r) == r);
    }
}

} // verus!
