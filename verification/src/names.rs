//! Synthesised names: implicit binders and fresh definitions.
use vstd::prelude::*;
use vstd::string::StringExecFns;

verus! {

/// The decimal digit for `d`, a number below ten.
pub open spec fn digit_char(d: nat) -> char {
    if d == 0 {
        '0'
    } else if d == 1 {
        '1'
    } else if d == 2 {
        '2'
    } else if d == 3 {
        '3'
    } else if d == 4 {
        '4'
    } else if d == 5 {
        '5'
    } else if d == 6 {
        '6'
    } else if d == 7 {
        '7'
    } else if d == 8 {
        '8'
    } else {
        '9'
    }
}

/// The decimal rendering of `n`, without leading zeros.
pub open spec fn decimal(n: nat) -> Seq<char>
    decreases n,
{
    if n < 10 {
        seq![digit_char(n)]
    } else {
        decimal(n / 10).push(digit_char(n % 10))
    }
}

/// The name of the implicit binder for field `field` of the scrutinee:
/// scrutinee, a dot, the field.
pub open spec fn binded_name(scrutinee: Seq<char>, field: Seq<char>) -> Seq<char> {
    scrutinee + seq!['.'] + field
}

/// The name of the implicit predecessor binder: the scrutinee followed by `-1`.
pub open spec fn pred_name(scrutinee: Seq<char>) -> Seq<char> {
    scrutinee + seq!['-', '1']
}

/// The reserved name that a hoisted scrutinee is bound to.
pub open spec fn temp_name() -> Seq<char> {
    "%temp%scrutinee"@
}

/// The name of a fresh definition: enclosing definition, `$`, tag, `$`,
/// match counter in decimal.
pub open spec fn def_name_of(def_name: Seq<char>, tag: Seq<char>, i: nat) -> Seq<char> {
    def_name + seq!['$'] + tag + seq!['$'] + decimal(i)
}

fn digit_str(d: usize) -> (r: &'static str)
    requires
        d < 10,
    ensures
        r@ == seq![digit_char(d as nat)],
{
    proof {
        reveal_strlit("0");
        reveal_strlit("1");
        reveal_strlit("2");
        reveal_strlit("3");
        reveal_strlit("4");
        reveal_strlit("5");
        reveal_strlit("6");
        reveal_strlit("7");
        reveal_strlit("8");
        reveal_strlit("9");
    }
    let r = if d == 0 {
        "0"
    } else if d == 1 {
        "1"
    } else if d == 2 {
        "2"
    } else if d == 3 {
        "3"
    } else if d == 4 {
        "4"
    } else if d == 5 {
        "5"
    } else if d == 6 {
        "6"
    } else if d == 7 {
        "7"
    } else if d == 8 {
        "8"
    } else {
        "9"
    };
    assert(r@ =~= seq![digit_char(d as nat)]);
    r
}

/// Renders `n` in decimal.
pub fn decimal_string(n: usize) -> (r: String)
    ensures
        r@ == decimal(n as nat),
    decreases n,
{
    if n < 10 {
        String::from_str(digit_str(n))
    } else {
        let mut s = decimal_string(n / 10);
        s.append(digit_str(n % 10));
        assert(s@ =~= decimal(n as nat));
        s
    }
}

/// The implicit binder name for one field of a scrutinee.
pub fn binded(bind: &String, acc: &String) -> (r: String)
    ensures
        r@ == binded_name(bind@, acc@),
{
    proof {
        reveal_strlit(".");
    }
    let mut s = bind.clone();
    s.append(".");
    s.append(acc.as_str());
    assert(s@ =~= binded_name(bind@, acc@));
    s
}

/// The implicit predecessor binder name of a scrutinee.
pub fn pred_binder(bind: &String) -> (r: String)
    ensures
        r@ == pred_name(bind@),
{
    proof {
        reveal_strlit("-1");
    }
    let mut s = bind.clone();
    s.append("-1");
    assert(s@ =~= pred_name(bind@));
    s
}

/// The name of the fresh definition for `ctr` in match number `i` of
/// definition `def_name`.
pub fn make_def_name(def_name: &String, ctr: &String, i: usize) -> (r: String)
    ensures
        r@ == def_name_of(def_name@, ctr@, i as nat),
{
    proof {
        reveal_strlit("$");
    }
    let mut s = def_name.clone();
    s.append("$");
    s.append(ctr.as_str());
    s.append("$");
    let d = decimal_string(i);
    s.append(d.as_str());
    assert(s@ =~= def_name_of(def_name@, ctr@, i as nat));
    s
}

/// A decimal rendering is not empty, has at least two digits from ten on,
/// and holds no `$`.
pub proof fn lemma_decimal_shape(n: nat)
    ensures
        decimal(n).len() >= 1,
        n >= 10 ==> decimal(n).len() >= 2,
        forall|k: int| 0 <= k < decimal(n).len() ==> #[trigger] decimal(n)[k] != '$',
    decreases n,
{
    if n >= 10 {
        lemma_decimal_shape(n / 10);
        assert forall|k: int| 0 <= k < decimal(n).len() implies #[trigger] decimal(n)[k] != '$' by {
            if k < decimal(n / 10).len() {
                assert(decimal(n)[k] == decimal(n / 10)[k]);
            }
        }
    }
}

/// Different numbers have different decimal renderings.
pub proof fn lemma_decimal_injective(a: nat, b: nat)
    requires
        decimal(a) == decimal(b),
    ensures
        a == b,
    decreases a,
{
    lemma_decimal_shape(a);
    lemma_decimal_shape(b);
    if a < 10 {
        assert(decimal(a)[0] == digit_char(a));
        if b >= 10 {
            assert(decimal(b).len() >= 2);
        } else {
            assert(decimal(b)[0] == digit_char(b));
        }
    } else {
        assert(decimal(a).len() >= 2);
        if b < 10 {
            assert(decimal(b).len() == 1);
        } else {
            assert(decimal(a).drop_last() =~= decimal(a / 10));
            assert(decimal(b).drop_last() =~= decimal(b / 10));
            assert(decimal(a).last() == digit_char(a % 10));
            assert(decimal(b).last() == digit_char(b % 10));
            lemma_decimal_injective(a / 10, b / 10);
        }
    }
}

/// Fresh definition names are collision-free: within one enclosing
/// definition, two names are equal only for the same tag and the same match
/// number.
pub proof fn lemma_def_names_distinct(
    def_name: Seq<char>,
    tag1: Seq<char>,
    i1: nat,
    tag2: Seq<char>,
    i2: nat,
)
    requires
        def_name_of(def_name, tag1, i1) == def_name_of(def_name, tag2, i2),
    ensures
        tag1 == tag2,
        i1 == i2,
{
    let n1 = def_name_of(def_name, tag1, i1);
    let n2 = def_name_of(def_name, tag2, i2);
    let x1 = decimal(i1);
    let x2 = decimal(i2);
    let base: int = def_name.len() as int + 1;
    lemma_decimal_shape(i1);
    lemma_decimal_shape(i2);
    assert(n1.len() == base + tag1.len() + 1 + x1.len());
    assert(n2.len() == base + tag2.len() + 1 + x2.len());
    assert(n1[base + tag1.len()] == '$');
    assert(n2[base + tag2.len()] == '$');
    if x1.len() < x2.len() {
        assert(n2[base + tag1.len()] == x2[tag1.len() - tag2.len() - 1]);
        assert(false);
    }
    if x2.len() < x1.len() {
        assert(n1[base + tag2.len()] == x1[tag2.len() - tag1.len() - 1]);
        assert(false);
    }
    assert forall|k: int| 0 <= k < tag1.len() implies tag1[k] == tag2[k] by {
        assert(n1[base + k] == tag1[k]);
        assert(n2[base + k] == tag2[k]);
    }
    assert(tag1 =~= tag2);
    assert forall|k: int| 0 <= k < x1.len() implies x1[k] == x2[k] by {
        assert(n1[base + tag1.len() + 1 + k] == x1[k]);
        assert(n2[base + tag2.len() + 1 + k] == x2[k]);
    }
    assert(x1 =~= x2);
    lemma_decimal_injective(i1, i2);
}

/// Implicit binder names are collision-free: under one scrutinee, two field
/// binders are equal only for the same field.
pub proof fn lemma_binders_distinct(scrutinee: Seq<char>, field1: Seq<char>, field2: Seq<char>)
    requires
        binded_name(scrutinee, field1) == binded_name(scrutinee, field2),
    ensures
        field1 == field2,
{
    let n1 = binded_name(scrutinee, field1);
    let n2 = binded_name(scrutinee, field2);
    assert(n1.len() == scrutinee.len() + 1 + field1.len());
    assert(n2.len() == scrutinee.len() + 1 + field2.len());
    assert forall|k: int| 0 <= k < field1.len() implies field1[k] == field2[k] by {
        assert(n1[scrutinee.len() + 1 + k] == field1[k]);
        assert(n2[scrutinee.len() + 1 + k] == field2[k]);
    }
    assert(field1 =~= field2);
}

} // verus!
