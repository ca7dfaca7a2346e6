//! The language of a syntax tree: which symbol sequences a tree accepts.
//!
//! This is the mathematical account of the operators, stated over the
//! tree model alone, together with the algebraic laws the operators obey:
//! alternation is union, concatenation is associative in effect, and the
//! repetition operators are interdefinable.

use vstd::prelude::*;

use crate::ast::SpecAst;

verus! {

/// `ast` accepts the symbol sequence `s`.
///
/// `Char` accepts exactly its one symbol; `Concat` splits `s` among its
/// children in order; `Or` accepts what either operand accepts; `Star`
/// accepts the empty sequence and any concatenation of nonempty accepted
/// pieces; `Plus` needs at least one piece; `Question` accepts the empty
/// sequence and whatever its child accepts.
pub open spec fn accepts(ast: SpecAst, s: Seq<char>) -> bool
    decreases ast, s.len(),
{
    match ast {
        SpecAst::Char(c) => s.len() == 1 && s[0] == c,
        SpecAst::Plus(e) => accepts(*e, s) || (exists|k: int|
            #![trigger s.take(k), s.skip(k)]
            1 <= k <= s.len() && accepts(*e, s.take(k)) && accepts(SpecAst::Plus(e), s.skip(k))),
        SpecAst::Star(e) => s.len() == 0 || (exists|k: int|
            #![trigger s.take(k), s.skip(k)]
            1 <= k <= s.len() && accepts(*e, s.take(k)) && accepts(SpecAst::Star(e), s.skip(k))),
        SpecAst::Question(e) => s.len() == 0 || accepts(*e, s),
        SpecAst::Or(e1, e2) => accepts(*e1, s) || accepts(*e2, s),
        SpecAst::Concat(l) => accepts_list(l, s),
    }
}

/// The children of `l` accept `s` split among them in order; an empty
/// list accepts exactly the empty sequence.
pub open spec fn accepts_list(l: Seq<SpecAst>, s: Seq<char>) -> bool
    decreases l, s.len(),
{
    if l.len() == 0 {
        s.len() == 0
    } else {
        exists|k: int|
            #![trigger s.take(k), s.skip(k)]
            0 <= k <= s.len() && accepts(l[0], s.take(k)) && accepts_list(
                l.drop_first(),
                s.skip(k),
            )
    }
}

/// A one-element list accepts what its element accepts.
pub proof fn lemma_accepts_singleton(x: SpecAst, s: Seq<char>)
    ensures
        accepts_list(seq![x], s) == accepts(x, s),
{
    let one = seq![x];
    assert(one[0] == x);
    assert(one.drop_first() =~= Seq::<SpecAst>::empty());
    if accepts(x, s) {
        let n = s.len() as int;
        assert(s.take(n) =~= s);
        assert(s.skip(n) =~= Seq::<char>::empty());
        assert(accepts(one[0], s.take(n)) && accepts_list(one.drop_first(), s.skip(n)));
    }
    if accepts_list(one, s) {
        let k = choose|k: int|
            #![trigger s.take(k), s.skip(k)]
            0 <= k <= s.len() && accepts(one[0], s.take(k)) && accepts_list(
                one.drop_first(),
                s.skip(k),
            );
        assert(s.skip(k).len() == 0);
        assert(s.take(k) =~= s);
    }
}

/// The language of an alternation is the union of its operands'
/// languages, whichever order they stand in: the left bias of the
/// search order does not change what is accepted.
pub proof fn lemma_or_language(e1: SpecAst, e2: SpecAst, s: Seq<char>)
    ensures
        accepts(SpecAst::Or(Box::new(e1), Box::new(e2)), s) == (accepts(e1, s) || accepts(e2, s)),
        accepts(SpecAst::Or(Box::new(e1), Box::new(e2)), s) == accepts(
            SpecAst::Or(Box::new(e2), Box::new(e1)),
            s,
        ),
{
}

/// A zero-or-one accepts exactly what the alternation of its child with
/// the empty concatenation accepts.
pub proof fn lemma_question_language(e: SpecAst, s: Seq<char>)
    ensures
        accepts(SpecAst::Question(Box::new(e)), s) == accepts(
            SpecAst::Or(Box::new(e), Box::new(SpecAst::Concat(Seq::empty()))),
            s,
        ),
{
    let l = Seq::<SpecAst>::empty();
    assert(l.len() == 0);
    assert(accepts_list(l, s) == (s.len() == 0));
    assert(accepts(SpecAst::Concat(l), s) == (s.len() == 0));
}

/// A concatenated list accepts `s` exactly when a prefix of `s` is
/// accepted by its first part and the rest by its second part.
pub proof fn lemma_concat_split(l1: Seq<SpecAst>, l2: Seq<SpecAst>, s: Seq<char>)
    ensures
        accepts_list(l1 + l2, s) == (exists|k: int|
            #![trigger s.take(k), s.skip(k)]
            0 <= k <= s.len() && accepts_list(l1, s.take(k)) && accepts_list(l2, s.skip(k))),
    decreases l1.len(),
{
    if l1.len() == 0 {
        assert(l1 + l2 =~= l2);
        if accepts_list(l2, s) {
            assert(s.take(0) =~= Seq::<char>::empty());
            assert(s.skip(0) =~= s);
            assert(accepts_list(l1, s.take(0)) && accepts_list(l2, s.skip(0)));
        }
        if exists|k: int|
            #![trigger s.take(k), s.skip(k)]
            0 <= k <= s.len() && accepts_list(l1, s.take(k)) && accepts_list(l2, s.skip(k)) {
            let k = choose|k: int|
                #![trigger s.take(k), s.skip(k)]
                0 <= k <= s.len() && accepts_list(l1, s.take(k)) && accepts_list(l2, s.skip(k));
            assert(s.take(k).len() == 0);
            assert(s.skip(k) =~= s);
        }
    } else {
        let c = l1 + l2;
        assert(c[0] == l1[0]);
        assert(c.drop_first() =~= l1.drop_first() + l2);
        if accepts_list(c, s) {
            let m = choose|m: int|
                #![trigger s.take(m), s.skip(m)]
                0 <= m <= s.len() && accepts(c[0], s.take(m)) && accepts_list(
                    c.drop_first(),
                    s.skip(m),
                );
            lemma_concat_split(l1.drop_first(), l2, s.skip(m));
            let t = s.skip(m);
            let k2 = choose|k2: int|
                #![trigger t.take(k2), t.skip(k2)]
                0 <= k2 <= t.len() && accepts_list(l1.drop_first(), t.take(k2)) && accepts_list(
                    l2,
                    t.skip(k2),
                );
            let k = m + k2;
            assert(s.take(k).take(m) =~= s.take(m));
            assert(s.take(k).skip(m) =~= t.take(k2));
            assert(t.skip(k2) =~= s.skip(k));
            assert(accepts(l1[0], s.take(k).take(m)) && accepts_list(
                l1.drop_first(),
                s.take(k).skip(m),
            ));
            assert(accepts_list(l1, s.take(k)));
            assert(accepts_list(l2, s.skip(k)));
        }
        if exists|k: int|
            #![trigger s.take(k), s.skip(k)]
            0 <= k <= s.len() && accepts_list(l1, s.take(k)) && accepts_list(l2, s.skip(k)) {
            let k = choose|k: int|
                #![trigger s.take(k), s.skip(k)]
                0 <= k <= s.len() && accepts_list(l1, s.take(k)) && accepts_list(l2, s.skip(k));
            let u = s.take(k);
            let m = choose|m: int|
                #![trigger u.take(m), u.skip(m)]
                0 <= m <= u.len() && accepts(l1[0], u.take(m)) && accepts_list(
                    l1.drop_first(),
                    u.skip(m),
                );
            assert(u.take(m) =~= s.take(m));
            lemma_concat_split(l1.drop_first(), l2, s.skip(m));
            assert(u.skip(m) =~= s.skip(m).take(k - m));
            assert(s.skip(m).skip(k - m) =~= s.skip(k));
            assert(accepts_list(l1.drop_first(), s.skip(m).take(k - m)) && accepts_list(
                l2,
                s.skip(m).skip(k - m),
            ));
            assert(accepts_list(l1.drop_first() + l2, s.skip(m)));
            assert(accepts(c[0], s.take(m)) && accepts_list(c.drop_first(), s.skip(m)));
            assert(accepts_list(c, s));
        }
    }
}

/// Concatenation is associative in effect: a nested concatenation at the
/// head of a list accepts exactly what the flattened list accepts.
pub proof fn lemma_concat_associative(l1: Seq<SpecAst>, rest: Seq<SpecAst>, s: Seq<char>)
    ensures
        accepts_list(seq![SpecAst::Concat(l1)] + rest, s) == accepts_list(l1 + rest, s),
{
    let c = seq![SpecAst::Concat(l1)] + rest;
    assert(c[0] == SpecAst::Concat(l1));
    assert(c.drop_first() =~= rest);
    lemma_concat_split(l1, rest, s);
    if accepts_list(c, s) {
        let k = choose|k: int|
            #![trigger s.take(k), s.skip(k)]
            0 <= k <= s.len() && accepts(c[0], s.take(k)) && accepts_list(
                c.drop_first(),
                s.skip(k),
            );
        assert(accepts_list(l1, s.take(k)) && accepts_list(rest, s.skip(k)));
    }
    if accepts_list(l1 + rest, s) {
        let k = choose|k: int|
            #![trigger s.take(k), s.skip(k)]
            0 <= k <= s.len() && accepts_list(l1, s.take(k)) && accepts_list(rest, s.skip(k));
        assert(accepts(c[0], s.take(k)) && accepts_list(c.drop_first(), s.skip(k)));
    }
}

/// A zero-or-more accepts the empty sequence.
pub proof fn lemma_star_empty(e: SpecAst)
    ensures
        accepts(SpecAst::Star(Box::new(e)), Seq::empty()),
{
}

/// A zero-or-more is closed under prepending an accepted piece: with it,
/// any finite repetition of accepted pieces is accepted, however the
/// pieces overlap or divide.
pub proof fn lemma_star_append(e: SpecAst, x: Seq<char>, y: Seq<char>)
    requires
        accepts(e, x),
        accepts(SpecAst::Star(Box::new(e)), y),
    ensures
        accepts(SpecAst::Star(Box::new(e)), x + y),
{
    if x.len() == 0 {
        assert(x + y =~= y);
    } else {
        let s = x + y;
        let k = x.len() as int;
        assert(s.take(k) =~= x);
        assert(s.skip(k) =~= y);
        assert(accepts(e, s.take(k)) && accepts(SpecAst::Star(Box::new(e)), s.skip(k)));
    }
}

/// A one-or-more is closed in the same way.
proof fn lemma_plus_append(e: SpecAst, x: Seq<char>, y: Seq<char>)
    requires
        accepts(e, x),
        accepts(SpecAst::Star(Box::new(e)), y),
    ensures
        accepts(SpecAst::Plus(Box::new(e)), x + y),
    decreases y.len(),
{
    let bx = Box::new(e);
    if y.len() == 0 {
        assert(x + y =~= x);
    } else {
        let m = choose|m: int|
            #![trigger y.take(m), y.skip(m)]
            1 <= m <= y.len() && accepts(e, y.take(m)) && accepts(SpecAst::Star(bx), y.skip(m));
        lemma_plus_append(e, y.take(m), y.skip(m));
        assert(y.take(m) + y.skip(m) =~= y);
        let s = x + y;
        if x.len() == 0 {
            assert(s =~= y);
        } else {
            let k = x.len() as int;
            assert(s.take(k) =~= x);
            assert(s.skip(k) =~= y);
            assert(accepts(e, s.take(k)) && accepts(SpecAst::Plus(bx), s.skip(k)));
        }
    }
}

/// A one-or-more accepts exactly what its child followed by that child's
/// zero-or-more accepts.
pub proof fn lemma_plus_language(e: SpecAst, s: Seq<char>)
    ensures
        accepts(SpecAst::Plus(Box::new(e)), s) == accepts_list(
            seq![e, SpecAst::Star(Box::new(e))],
            s,
        ),
    decreases s.len(),
{
    let bx = Box::new(e);
    let pair = seq![e, SpecAst::Star(bx)];
    assert(pair[0] == e);
    assert(pair.drop_first() =~= seq![SpecAst::Star(bx)]);
    if accepts(SpecAst::Plus(bx), s) {
        if accepts(e, s) {
            lemma_star_empty(e);
            let n = s.len() as int;
            assert(s.take(n) =~= s);
            assert(s.skip(n) =~= Seq::<char>::empty());
            lemma_accepts_singleton(SpecAst::Star(bx), s.skip(n));
            assert(accepts(pair[0], s.take(n)) && accepts_list(pair.drop_first(), s.skip(n)));
        } else {
            let k = choose|k: int|
                #![trigger s.take(k), s.skip(k)]
                1 <= k <= s.len() && accepts(e, s.take(k)) && accepts(SpecAst::Plus(bx), s.skip(k));
            lemma_plus_language(e, s.skip(k));
            let t = s.skip(k);
            let k2 = choose|k2: int|
                #![trigger t.take(k2), t.skip(k2)]
                0 <= k2 <= t.len() && accepts(pair[0], t.take(k2)) && accepts_list(
                    pair.drop_first(),
                    t.skip(k2),
                );
            lemma_accepts_singleton(SpecAst::Star(bx), t.skip(k2));
            lemma_star_append(e, t.take(k2), t.skip(k2));
            assert(t.take(k2) + t.skip(k2) =~= t);
            assert(accepts(SpecAst::Star(bx), s.skip(k)));
            lemma_accepts_singleton(SpecAst::Star(bx), s.skip(k));
            assert(accepts(pair[0], s.take(k)) && accepts_list(pair.drop_first(), s.skip(k)));
        }
    }
    if accepts_list(pair, s) {
        let k = choose|k: int|
            #![trigger s.take(k), s.skip(k)]
            0 <= k <= s.len() && accepts(pair[0], s.take(k)) && accepts_list(
                pair.drop_first(),
                s.skip(k),
            );
        lemma_accepts_singleton(SpecAst::Star(bx), s.skip(k));
        lemma_plus_append(e, s.take(k), s.skip(k));
        assert(s.take(k) + s.skip(k) =~= s);
    }
}

} // verus!
