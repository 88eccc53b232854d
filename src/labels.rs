use vstd::prelude::*;

use crate::data_vector::ColumnElement;

verus! {

/// `a` comes before `b` in lexicographic order.
pub open spec fn lex_lt(a: Seq<int>, b: Seq<int>) -> bool
    decreases a.len(),
{
    if a.len() == 0 {
        b.len() > 0
    } else if b.len() == 0 {
        false
    } else if a[0] != b[0] {
        a[0] < b[0]
    } else {
        lex_lt(a.drop_first(), b.drop_first())
    }
}

pub proof fn lemma_lex_irreflexive(a: Seq<int>)
    ensures
        !lex_lt(a, a),
    decreases a.len(),
{
    if a.len() > 0 {
        lemma_lex_irreflexive(a.drop_first());
    }
}

pub proof fn lemma_lex_total(a: Seq<int>, b: Seq<int>)
    ensures
        a == b || lex_lt(a, b) || lex_lt(b, a),
        !(lex_lt(a, b) && lex_lt(b, a)),
    decreases a.len(),
{
    if a.len() > 0 && b.len() > 0 && a[0] == b[0] {
        lemma_lex_total(a.drop_first(), b.drop_first());
        if a.drop_first() == b.drop_first() {
            assert(a =~= seq![a[0]] + a.drop_first());
            assert(b =~= seq![b[0]] + b.drop_first());
        }
    } else if a.len() == 0 && b.len() == 0 {
        assert(a =~= b);
    }
}

pub proof fn lemma_lex_transitive(a: Seq<int>, b: Seq<int>, c: Seq<int>)
    requires
        lex_lt(a, b),
        lex_lt(b, c),
    ensures
        lex_lt(a, c),
    decreases a.len(),
{
    if a.len() > 0 && b.len() > 0 && c.len() > 0 && a[0] == b[0] && b[0] == c[0] {
        lemma_lex_transitive(a.drop_first(), b.drop_first(), c.drop_first());
    }
}

/// Equal prefixes of length `i` leave the order to what follows them.
proof fn lemma_lex_skip(a: Seq<int>, b: Seq<int>, i: int)
    requires
        0 <= i <= a.len(),
        i <= b.len(),
        a.subrange(0, i) == b.subrange(0, i),
    ensures
        lex_lt(a, b) == lex_lt(a.subrange(i, a.len() as int), b.subrange(i, b.len() as int)),
    decreases i,
{
    if i > 0 {
        assert(a[0] == a.subrange(0, i)[0]);
        assert(b[0] == b.subrange(0, i)[0]);
        assert(a.drop_first().subrange(0, i - 1) =~= a.subrange(0, i).drop_first());
        assert(b.drop_first().subrange(0, i - 1) =~= b.subrange(0, i).drop_first());
        lemma_lex_skip(a.drop_first(), b.drop_first(), i - 1);
        assert(a.drop_first().subrange(i - 1, a.len() - 1) =~= a.subrange(i, a.len() as int));
        assert(b.drop_first().subrange(i - 1, b.len() - 1) =~= b.subrange(i, b.len() as int));
    } else {
        assert(a.subrange(0, a.len() as int) =~= a);
        assert(b.subrange(0, b.len() as int) =~= b);
    }
}

/// The order of two keys, as `compare` reports it: negative, zero or positive.
pub open spec fn order_of(r: i8, a: Seq<int>, b: Seq<int>) -> bool {
    &&& (r < 0) == lex_lt(a, b)
    &&& (r == 0) == (a == b)
    &&& (r > 0) == lex_lt(b, a)
}

/// A label type of a classifier, ordered by its key: labels with equal keys
/// are the same label, and a smaller key is a smaller label.
pub trait ClassLabel: ColumnElement + View {
    spec fn key(&self) -> Seq<int>;

    /// Two labels have equal keys exactly when they are the same label: the
    /// same value for integers and booleans, the same characters for strings.
    proof fn lemma_key_view(a: Self, b: Self)
        ensures
            (a.key() == b.key()) == (a@ == b@),
    ;

    fn compare(&self, other: &Self) -> (r: i8)
        ensures
            order_of(r, self.key(), other.key()),
    ;
}

impl ClassLabel for i64 {
    open spec fn key(&self) -> Seq<int> {
        seq![*self as int]
    }

    proof fn lemma_key_view(a: i64, b: i64) {
        if a.key() == b.key() {
            assert(a.key()[0] == b.key()[0]);
        }
    }

    fn compare(&self, other: &i64) -> i8 {
        let ghost a = seq![*self as int];
        let ghost b = seq![*other as int];
        proof {
            assert(a.drop_first() =~= Seq::<int>::empty());
            assert(b.drop_first() =~= Seq::<int>::empty());
            assert(!lex_lt(a.drop_first(), b.drop_first()));
            assert(!lex_lt(b.drop_first(), a.drop_first()));
            assert(a.len() == 1 && b.len() == 1);
            assert(lex_lt(a, b) == (a[0] < b[0]));
            assert(lex_lt(b, a) == (b[0] < a[0]));
        }
        if *self < *other {
            -1
        } else if *self > *other {
            1
        } else {
            proof {
                assert(a =~= b);
            }
            0
        }
    }
}

impl ClassLabel for bool {
    open spec fn key(&self) -> Seq<int> {
        seq![if *self { 1int } else { 0int }]
    }

    proof fn lemma_key_view(a: bool, b: bool) {
        if a.key() == b.key() {
            assert(a.key()[0] == b.key()[0]);
        }
    }

    fn compare(&self, other: &bool) -> i8 {
        let ghost a = self.key();
        let ghost b = other.key();
        proof {
            assert(a.drop_first() =~= Seq::<int>::empty());
            assert(b.drop_first() =~= Seq::<int>::empty());
            assert(!lex_lt(a.drop_first(), b.drop_first()));
            assert(!lex_lt(b.drop_first(), a.drop_first()));
            assert(a.len() == 1 && b.len() == 1);
            assert(lex_lt(a, b) == (a[0] < b[0]));
            assert(lex_lt(b, a) == (b[0] < a[0]));
        }
        if !*self && *other {
            -1
        } else if *self && !*other {
            1
        } else {
            proof {
                assert(a =~= b);
            }
            0
        }
    }
}

/// The key of a string: the code points of its characters.
pub open spec fn char_codes(s: Seq<char>) -> Seq<int> {
    s.map_values(|c: char| c as int)
}

impl ClassLabel for String {
    open spec fn key(&self) -> Seq<int> {
        char_codes(self@)
    }

    proof fn lemma_key_view(a: String, b: String) {
        if a.key() == b.key() {
            assert(char_codes(a@).len() == a@.len());
            assert(char_codes(b@).len() == b@.len());
            assert forall|i: int| 0 <= i < a@.len() implies a@[i] == b@[i] by {
                assert(char_codes(a@)[i] == char_codes(b@)[i]);
                assert(a@[i] as int == b@[i] as int);
            }
            assert(a@ =~= b@);
        }
    }

    fn compare(&self, other: &String) -> i8 {
        let a = self.as_str();
        let b = other.as_str();
        let na = a.unicode_len();
        let nb = b.unicode_len();
        let ghost ka = self.key();
        let ghost kb = other.key();
        let mut i: usize = 0;
        while i < na && i < nb
            invariant
                na == ka.len(),
                nb == kb.len(),
                a@ == self@,
                b@ == other@,
                ka == char_codes(self@),
                kb == char_codes(other@),
                i <= na,
                i <= nb,
                ka.subrange(0, i as int) == kb.subrange(0, i as int),
            decreases na - i,
        {
            let ca = a.get_char(i);
            let cb = b.get_char(i);
            proof {
                lemma_lex_skip(ka, kb, i as int);
                lemma_lex_skip(kb, ka, i as int);
                let ra = ka.subrange(i as int, ka.len() as int);
                let rb = kb.subrange(i as int, kb.len() as int);
                assert(ra[0] == ca as int);
                assert(rb[0] == cb as int);
            }
            if (ca as u32) < (cb as u32) {
                proof {
                    assert(ka != kb) by {
                        assert(ka[i as int] != kb[i as int]);
                    }
                }
                return -1;
            }
            if (ca as u32) > (cb as u32) {
                proof {
                    assert(ka != kb) by {
                        assert(ka[i as int] != kb[i as int]);
                    }
                }
                return 1;
            }
            proof {
                assert(ka.subrange(0, i + 1) =~= ka.subrange(0, i as int).push(ka[i as int]));
                assert(kb.subrange(0, i + 1) =~= kb.subrange(0, i as int).push(kb[i as int]));
            }
            i = i + 1;
        }
        proof {
            lemma_lex_skip(ka, kb, i as int);
            lemma_lex_skip(kb, ka, i as int);
            if na == nb {
                assert(ka =~= ka.subrange(0, i as int));
                assert(kb =~= kb.subrange(0, i as int));
            } else {
                assert(ka.len() != kb.len());
            }
        }
        if na < nb {
            -1
        } else if na > nb {
            1
        } else {
            0
        }
    }
}

} // verus!
