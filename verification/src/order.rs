//! Lexicographic order on texts, byte strings and lists of byte strings.

use vstd::prelude::*;
use crate::text::chars_of;

verus! {

/// Whether `less` orders its type strictly and totally.
pub open spec fn strict_total<T>(less: spec_fn(T, T) -> bool) -> bool {
    &&& forall|a: T| !#[trigger] less(a, a)
    &&& forall|a: T, b: T, c: T| #[trigger] less(a, b) && #[trigger] less(b, c) ==> less(a, c)
    &&& forall|a: T, b: T| a == b || #[trigger] less(a, b) || less(b, a)
}

/// Lexicographic order over sequences, given the order of their items: at the
/// first difference the smaller item decides, and a proper prefix comes first.
pub open spec fn lex_less<T>(less: spec_fn(T, T) -> bool, a: Seq<T>, b: Seq<T>) -> bool
    decreases a.len(),
{
    if b.len() == 0 {
        false
    } else if a.len() == 0 {
        true
    } else if a[0] == b[0] {
        lex_less(less, a.drop_first(), b.drop_first())
    } else {
        less(a[0], b[0])
    }
}

proof fn lemma_lex_irreflexive<T>(less: spec_fn(T, T) -> bool, a: Seq<T>)
    ensures
        !lex_less(less, a, a),
    decreases a.len(),
{
    if a.len() > 0 {
        lemma_lex_irreflexive(less, a.drop_first());
    }
}

proof fn lemma_lex_transitive<T>(less: spec_fn(T, T) -> bool, a: Seq<T>, b: Seq<T>, c: Seq<T>)
    requires
        strict_total(less),
        lex_less(less, a, b),
        lex_less(less, b, c),
    ensures
        lex_less(less, a, c),
    decreases a.len(),
{
    if a.len() > 0 {
        if a[0] == b[0] && b[0] == c[0] {
            lemma_lex_transitive(less, a.drop_first(), b.drop_first(), c.drop_first());
        } else if a[0] != b[0] && b[0] != c[0] {
            assert(less(a[0], b[0]) && less(b[0], c[0]));
            assert(less(a[0], c[0]));
            assert(!less(a[0], a[0]));
            if a[0] == c[0] {
                assert(less(a[0], a[0]));
            }
        }
    }
}

proof fn lemma_lex_total<T>(less: spec_fn(T, T) -> bool, a: Seq<T>, b: Seq<T>)
    requires
        strict_total(less),
    ensures
        a == b || lex_less(less, a, b) || lex_less(less, b, a),
    decreases a.len(),
{
    if a.len() == 0 && b.len() == 0 {
        assert(a =~= b);
    } else if a.len() > 0 && b.len() > 0 {
        if a[0] == b[0] {
            lemma_lex_total(less, a.drop_first(), b.drop_first());
            if a.drop_first() == b.drop_first() {
                assert(a =~= seq![a[0]] + a.drop_first());
                assert(b =~= seq![b[0]] + b.drop_first());
            }
        } else {
            assert(less(a[0], b[0]) || less(b[0], a[0]));
        }
    }
}

/// Lexicographic order is strict and total where the order of the items is.
pub proof fn law_lex_strict_total<T>(less: spec_fn(T, T) -> bool)
    requires
        strict_total(less),
    ensures
        strict_total(|a: Seq<T>, b: Seq<T>| lex_less(less, a, b)),
{
    let lex = |a: Seq<T>, b: Seq<T>| lex_less(less, a, b);
    assert forall|a: Seq<T>| !#[trigger] lex(a, a) by {
        lemma_lex_irreflexive(less, a);
    }
    assert forall|a: Seq<T>, b: Seq<T>, c: Seq<T>|
        #[trigger] lex(a, b) && #[trigger] lex(b, c) implies lex(a, c) by {
        lemma_lex_transitive(less, a, b, c);
    }
    assert forall|a: Seq<T>, b: Seq<T>| a == b || #[trigger] lex(a, b) || lex(b, a) by {
        lemma_lex_total(less, a, b);
    }
}

/// Code-point order of characters.
pub open spec fn char_order() -> spec_fn(char, char) -> bool {
    |a: char, b: char| a < b
}

/// Lexicographic order of texts by code points, which is also the order of
/// their UTF-8 encodings.
pub open spec fn text_less(a: Seq<char>, b: Seq<char>) -> bool {
    lex_less(char_order(), a, b)
}

/// `text_less` never holds of a text and itself.
pub proof fn lemma_text_less_irreflexive(a: Seq<char>)
    ensures
        !text_less(a, a),
{
    lemma_lex_irreflexive(char_order(), a);
}

/// `text_less` is transitive.
pub proof fn lemma_text_less_transitive(a: Seq<char>, b: Seq<char>, c: Seq<char>)
    requires
        text_less(a, b),
        text_less(b, c),
    ensures
        text_less(a, c),
{
    lemma_lex_transitive(char_order(), a, b, c);
}

/// Any two different texts are ordered by `text_less`.
pub proof fn lemma_text_less_total(a: Seq<char>, b: Seq<char>)
    ensures
        a == b || text_less(a, b) || text_less(b, a),
{
    lemma_lex_total(char_order(), a, b);
}

/// How two values stand to each other in an order.
#[derive(Clone, Copy, Debug, PartialEq, Eq, Structural)]
pub enum Rank {
    Before,
    Same,
    After,
}

/// Where `a` stands to `b` in the order of texts.
pub fn rank_texts(a: &str, b: &str) -> (r: Rank)
    ensures
        r == Rank::Before <==> text_less(a@, b@),
        r == Rank::Same <==> a@ == b@,
        r == Rank::After <==> text_less(b@, a@),
{
    let x = chars_of(a);
    let y = chars_of(b);
    let mut i: usize = 0;
    assert(a@.skip(0) =~= a@ && b@.skip(0) =~= b@);
    proof {
        lemma_text_less_irreflexive(a@);
    }
    while i < x.len() && i < y.len()
        invariant
            x@ == a@,
            y@ == b@,
            i <= x@.len(),
            i <= y@.len(),
            text_less(a@, b@) == text_less(a@.skip(i as int), b@.skip(i as int)),
            text_less(b@, a@) == text_less(b@.skip(i as int), a@.skip(i as int)),
            forall|k: int| 0 <= k < i ==> a@[k] == b@[k],
        decreases x@.len() - i,
    {
        let ghost p = a@.skip(i as int);
        let ghost q = b@.skip(i as int);
        assert(p[0] == x@[i as int] && q[0] == y@[i as int]);
        assert(p.drop_first() =~= a@.skip(i + 1));
        assert(q.drop_first() =~= b@.skip(i + 1));
        if x[i] != y[i] {
            assert(a@[i as int] != b@[i as int]);
            return if x[i] < y[i] {
                Rank::Before
            } else {
                Rank::After
            };
        }
        i = i + 1;
    }
    if x.len() == y.len() {
        assert(a@ =~= b@);
        Rank::Same
    } else if x.len() < y.len() {
        Rank::Before
    } else {
        Rank::After
    }
}

/// Numeric order of bytes.
pub open spec fn byte_order() -> spec_fn(u8, u8) -> bool {
    |a: u8, b: u8| a < b
}

/// Lexicographic order of byte strings.
pub open spec fn bytes_less(a: Seq<u8>, b: Seq<u8>) -> bool {
    lex_less(byte_order(), a, b)
}

/// The order of path components: that of their bytes.
pub open spec fn component_order() -> spec_fn(Seq<u8>, Seq<u8>) -> bool {
    |a: Seq<u8>, b: Seq<u8>| bytes_less(a, b)
}

/// The order of paths: component by component.
pub open spec fn path_less(a: Seq<Seq<u8>>, b: Seq<Seq<u8>>) -> bool {
    lex_less(component_order(), a, b)
}

proof fn lemma_component_order()
    ensures
        strict_total(component_order()),
{
    law_lex_strict_total(byte_order());
    let lex = |a: Seq<u8>, b: Seq<u8>| lex_less(byte_order(), a, b);
    assert(component_order() =~= lex);
}

/// `path_less` never holds of a path and itself.
pub proof fn lemma_path_less_irreflexive(a: Seq<Seq<u8>>)
    ensures
        !path_less(a, a),
{
    lemma_lex_irreflexive(component_order(), a);
}

/// `path_less` is transitive.
pub proof fn lemma_path_less_transitive(a: Seq<Seq<u8>>, b: Seq<Seq<u8>>, c: Seq<Seq<u8>>)
    requires
        path_less(a, b),
        path_less(b, c),
    ensures
        path_less(a, c),
{
    lemma_component_order();
    lemma_lex_transitive(component_order(), a, b, c);
}

/// Any two different paths are ordered by `path_less`.
pub proof fn lemma_path_less_total(a: Seq<Seq<u8>>, b: Seq<Seq<u8>>)
    ensures
        a == b || path_less(a, b) || path_less(b, a),
{
    lemma_component_order();
    lemma_lex_total(component_order(), a, b);
}

/// Where `a` stands to `b` in the order of byte strings.
pub fn rank_bytes(a: &Vec<u8>, b: &Vec<u8>) -> (r: Rank)
    ensures
        r == Rank::Before <==> bytes_less(a@, b@),
        r == Rank::Same <==> a@ == b@,
        r == Rank::After <==> bytes_less(b@, a@),
{
    let mut i: usize = 0;
    assert(a@.skip(0) =~= a@ && b@.skip(0) =~= b@);
    proof {
        lemma_lex_irreflexive(byte_order(), a@);
    }
    while i < a.len() && i < b.len()
        invariant
            i <= a@.len(),
            i <= b@.len(),
            bytes_less(a@, b@) == bytes_less(a@.skip(i as int), b@.skip(i as int)),
            bytes_less(b@, a@) == bytes_less(b@.skip(i as int), a@.skip(i as int)),
            forall|k: int| 0 <= k < i ==> a@[k] == b@[k],
        decreases a@.len() - i,
    {
        assert(a@.skip(i as int).drop_first() =~= a@.skip(i + 1));
        assert(b@.skip(i as int).drop_first() =~= b@.skip(i + 1));
        if a[i] != b[i] {
            return if a[i] < b[i] {
                Rank::Before
            } else {
                Rank::After
            };
        }
        i = i + 1;
    }
    if a.len() == b.len() {
        assert(a@ =~= b@);
        Rank::Same
    } else if a.len() < b.len() {
        Rank::Before
    } else {
        Rank::After
    }
}

/// The byte strings of a list of components.
pub open spec fn components(list: Seq<Vec<u8>>) -> Seq<Seq<u8>> {
    Seq::new(list.len(), |i: int| list[i]@)
}

/// Where `a` stands to `b` in the order of paths.
pub fn rank_paths(a: &Vec<Vec<u8>>, b: &Vec<Vec<u8>>) -> (r: Rank)
    ensures
        r == Rank::Before <==> path_less(components(a@), components(b@)),
        r == Rank::Same <==> components(a@) == components(b@),
        r == Rank::After <==> path_less(components(b@), components(a@)),
{
    let ghost p = components(a@);
    let ghost q = components(b@);
    let mut i: usize = 0;
    assert(p.skip(0) =~= p && q.skip(0) =~= q);
    proof {
        lemma_path_less_irreflexive(p);
    }
    while i < a.len() && i < b.len()
        invariant
            p == components(a@),
            q == components(b@),
            i <= a@.len(),
            i <= b@.len(),
            path_less(p, q) == path_less(p.skip(i as int), q.skip(i as int)),
            path_less(q, p) == path_less(q.skip(i as int), p.skip(i as int)),
            forall|k: int| 0 <= k < i ==> p[k] == q[k],
        decreases a@.len() - i,
    {
        assert(p.skip(i as int).drop_first() =~= p.skip(i + 1));
        assert(q.skip(i as int).drop_first() =~= q.skip(i + 1));
        let here = rank_bytes(&a[i], &b[i]);
        if here != Rank::Same {
            assert(p[i as int] != q[i as int]);
            return here;
        }
        i = i + 1;
    }
    if a.len() == b.len() {
        assert(p =~= q);
        Rank::Same
    } else if a.len() < b.len() {
        assert(p.len() != q.len());
        Rank::Before
    } else {
        assert(p.len() != q.len());
        Rank::After
    }
}

/// In lexicographic order the first difference decides, whatever follows it, and
/// what is longer comes behind what it begins with.
pub proof fn law_the_first_difference_decides<T>(
    less: spec_fn(T, T) -> bool,
    common: Seq<T>,
    x: T,
    y: T,
    a: Seq<T>,
    b: Seq<T>,
)
    ensures
        x != y ==> (lex_less(less, common + seq![x] + a, common + seq![y] + b) <==> less(x, y)),
        lex_less(less, common, common + seq![x] + a),
        !lex_less(less, common + seq![x] + a, common),
    decreases common.len(),
{
    let p = common + seq![x] + a;
    let q = common + seq![y] + b;
    if common.len() == 0 {
        assert(p[0] == x && q[0] == y);
    } else {
        let rest = common.drop_first();
        assert(p.drop_first() =~= rest + seq![x] + a);
        assert(q.drop_first() =~= rest + seq![y] + b);
        assert(p[0] == common[0] && q[0] == common[0]);
        law_the_first_difference_decides(less, rest, x, y, a, b);
    }
}

/// Texts are ordered by the code points of the first characters that differ, and a
/// text comes behind one that it begins with.
pub proof fn law_texts_are_ordered_by_code_points(common: Seq<char>, x: char, y: char, a: Seq<char>, b: Seq<char>)
    ensures
        x != y ==> (text_less(common + seq![x] + a, common + seq![y] + b) <==> (x as int) < (y as int)),
        text_less(common, common + seq![x] + a),
        !text_less(common + seq![x] + a, common),
        !text_less(common, common),
{
    law_the_first_difference_decides(char_order(), common, x, y, a, b);
    lemma_text_less_irreflexive(common);
}

/// Paths are ordered by the first bytes that differ in the first components that
/// differ. A component comes behind one that it begins with, and a path behind one
/// that leads to it.
pub proof fn law_paths_are_ordered_by_their_components(
    common: Seq<Seq<u8>>,
    start: Seq<u8>,
    x: u8,
    y: u8,
    a: Seq<u8>,
    b: Seq<u8>,
    c: Seq<Seq<u8>>,
    d: Seq<Seq<u8>>,
)
    ensures
        x != y ==> (path_less(
            common + seq![start + seq![x] + a] + c,
            common + seq![start + seq![y] + b] + d,
        ) <==> x < y),
        path_less(common + seq![start] + c, common + seq![start + seq![x] + a] + d),
        path_less(common, common + seq![start] + c),
        !path_less(common + seq![start] + c, common),
        !path_less(common, common),
{
    let p = start + seq![x] + a;
    let q = start + seq![y] + b;
    law_the_first_difference_decides(byte_order(), start, x, y, a, b);
    assert(p[start.len() as int] == x && q[start.len() as int] == y);
    law_the_first_difference_decides(component_order(), common, p, q, c, d);
    assert(p.len() > start.len());
    law_the_first_difference_decides(component_order(), common, start, p, c, d);
    lemma_path_less_irreflexive(common);
}

} // verus!
