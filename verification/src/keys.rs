//! Keys and scope tables: a key is a code plus a modifier mask, a scope table
//! is an ordered list of bindings, and lookup takes the last binding for a
//! key, so that entries appended later override earlier ones.

use vstd::prelude::*;

verus! {

pub const MODIFIER_NONE: u8 = 0;
pub const MODIFIER_SHIFT: u8 = 1;
pub const MODIFIER_CONTROL: u8 = 2;
pub const MODIFIER_ALT: u8 = 4;

/// A key code, independent of any terminal backend. Printable keys carry
/// their byte.
#[derive(Clone, Copy, Debug, PartialEq, Eq, Hash, Structural)]
pub enum KeyCode {
    Char(u8),
    Enter,
    Esc,
    Backspace,
    Tab,
    Left,
    Right,
    Up,
    Down,
}

/// One keypress: a code and the modifier mask held with it.
#[derive(Clone, Copy, Debug, PartialEq, Eq, Hash, Structural)]
pub struct Key {
    pub key: KeyCode,
    pub modifiers: u8,
}

/// The action a scope table maps `k` to: the last binding for `k` wins, so
/// appending a binding overrides earlier ones for the same key.
pub open spec fn spec_lookup<A>(t: Seq<(Key, A)>, k: Key) -> Option<A>
    decreases t.len(),
{
    if t.len() == 0 {
        None
    } else if t.last().0 == k {
        Some(t.last().1)
    } else {
        spec_lookup(t.drop_last(), k)
    }
}

/// Look a key up in one scope table.
pub fn lookup<A: Copy>(t: &Vec<(Key, A)>, k: Key) -> (r: Option<A>)
    ensures
        r == spec_lookup(t@, k),
{
    let mut i: usize = t.len();
    proof {
        assert(t@.subrange(0, t@.len() as int) =~= t@);
    }
    while i > 0
        invariant
            i <= t@.len(),
            spec_lookup(t@, k) == spec_lookup(t@.subrange(0, i as int), k),
        decreases i,
    {
        i = i - 1;
        let pair = t[i];
        if pair.0 == k {
            return Some(pair.1);
        }
        proof {
            assert(t@.subrange(0, i + 1 as int).drop_last() =~= t@.subrange(0, i as int));
        }
    }
    None
}

/// A configuration table's rows with their key lists as sequences.
pub open spec fn kv_view<A>(m: Seq<(A, Vec<Key>)>) -> Seq<(A, Seq<Key>)> {
    m.map_values(|p: (A, Vec<Key>)| (p.0, p.1@))
}

/// The bindings of one `(action, keys)` row, one per key.
pub open spec fn row_pairs<A>(a: A, ks: Seq<Key>) -> Seq<(Key, A)> {
    ks.map_values(|k: Key| (k, a))
}

/// A configuration mapping actions to key lists, inverted into an ordered
/// binding table from keys to actions.
pub open spec fn spec_invert<A>(m: Seq<(A, Seq<Key>)>) -> Seq<(Key, A)>
    decreases m.len(),
{
    if m.len() == 0 {
        Seq::empty()
    } else {
        spec_invert(m.drop_last()) + row_pairs(m.last().0, m.last().1)
    }
}

/// Invert an action-to-keys configuration table into a key-to-action
/// binding table, keeping row order.
pub fn invert_map<A: Copy>(m: &Vec<(A, Vec<Key>)>) -> (r: Vec<(Key, A)>)
    ensures
        r@ == spec_invert(kv_view(m@)),
{
    let mut r: Vec<(Key, A)> = Vec::new();
    let mut i: usize = 0;
    proof {
        assert(kv_view(m@.subrange(0, 0)) =~= Seq::<(A, Seq<Key>)>::empty());
        assert(r@ =~= spec_invert(kv_view(m@.subrange(0, 0))));
    }
    while i < m.len()
        invariant
            i <= m@.len(),
            r@ == spec_invert(kv_view(m@.subrange(0, i as int))),
        decreases m@.len() - i,
    {
        let row: &(A, Vec<Key>) = &m[i];
        let a: A = row.0;
        let mut j: usize = 0;
        proof {
            assert(row_pairs(a, row.1@.subrange(0, 0)) =~= Seq::<(Key, A)>::empty());
            assert(r@ =~= spec_invert(kv_view(m@.subrange(0, i as int))) + row_pairs(
                a,
                row.1@.subrange(0, 0),
            ));
        }
        while j < row.1.len()
            invariant
                j <= row.1@.len(),
                r@ == spec_invert(kv_view(m@.subrange(0, i as int))) + row_pairs(
                    a,
                    row.1@.subrange(0, j as int),
                ),
        decreases row.1@.len() - j,
        {
            r.push((row.1[j], a));
            proof {
                assert(row_pairs(a, row.1@.subrange(0, j + 1 as int)) =~= row_pairs(
                    a,
                    row.1@.subrange(0, j as int),
                ).push((row.1@[j as int], a)));
                assert(r@ =~= spec_invert(kv_view(m@.subrange(0, i as int))) + row_pairs(
                    a,
                    row.1@.subrange(0, j + 1 as int),
                ));
            }
            j = j + 1;
        }
        proof {
            assert(row.1@.subrange(0, row.1@.len() as int) =~= row.1@);
            assert(kv_view(m@.subrange(0, i + 1 as int)).drop_last() =~= kv_view(
                m@.subrange(0, i as int),
            ));
            assert(kv_view(m@.subrange(0, i + 1 as int)).last() == (m@[i as int].0, m@[
                i as int].1@));
            assert(r@ =~= spec_invert(kv_view(m@.subrange(0, i + 1 as int))));
        }
        i = i + 1;
    }
    proof {
        assert(m@.subrange(0, m@.len() as int) =~= m@);
    }
    r
}

/// Looking a key up in one table appended to another takes the second
/// table's binding when it has one, else the first's.
pub proof fn lemma_lookup_append<A>(t1: Seq<(Key, A)>, t2: Seq<(Key, A)>, k: Key)
    ensures
        spec_lookup(t1 + t2, k) == (match spec_lookup(t2, k) {
            Some(a) => Some(a),
            None => spec_lookup(t1, k),
        }),
    decreases t2.len(),
{
    if t2.len() == 0 {
        assert((t1 + t2) =~= t1);
    } else {
        assert((t1 + t2).drop_last() =~= t1 + t2.drop_last());
        assert((t1 + t2).last() == t2.last());
        lemma_lookup_append(t1, t2.drop_last(), k);
    }
}

/// Law: merging user bindings after the defaults makes the user's binding
/// for an exact `(key, modifiers)` pair replace the default one, while keys
/// the user leaves alone keep their default binding.
pub proof fn lemma_user_bindings_override<A>(
    defaults: Seq<(Key, A)>,
    user: Seq<(Key, A)>,
    k: Key,
)
    ensures
        spec_lookup(defaults + user, k) == (match spec_lookup(user, k) {
            Some(a) => Some(a),
            None => spec_lookup(defaults, k),
        }),
{
    lemma_lookup_append(defaults, user, k);
}

/// Merge default bindings with user bindings: the user's rows are appended
/// after the defaults, so for any exact key the user's binding wins.
pub fn merge_bindings<A: Copy>(defaults: &Vec<(Key, A)>, user: &Vec<(Key, A)>) -> (r: Vec<
    (Key, A),
>)
    ensures
        r@ == defaults@ + user@,
        forall|k: Key|
            spec_lookup(r@, k) == (match spec_lookup(user@, k) {
                Some(a) => Some(a),
                None => spec_lookup(defaults@, k),
            }),
{
    let mut r: Vec<(Key, A)> = Vec::new();
    let mut i: usize = 0;
    proof {
        assert(r@ =~= defaults@.subrange(0, 0));
    }
    while i < defaults.len()
        invariant
            i <= defaults@.len(),
            r@ == defaults@.subrange(0, i as int),
        decreases defaults@.len() - i,
    {
        r.push(defaults[i]);
        proof {
            assert(defaults@.subrange(0, i + 1 as int) =~= defaults@.subrange(0, i as int).push(
                defaults@[i as int],
            ));
        }
        i = i + 1;
    }
    proof {
        assert(defaults@.subrange(0, defaults@.len() as int) =~= defaults@);
    }
    let mut j: usize = 0;
    proof {
        assert(r@ =~= defaults@ + user@.subrange(0, 0));
    }
    while j < user.len()
        invariant
            j <= user@.len(),
            r@ == defaults@ + user@.subrange(0, j as int),
        decreases user@.len() - j,
    {
        r.push(user[j]);
        proof {
            assert(defaults@ + user@.subrange(0, j + 1 as int) =~= (defaults@ + user@.subrange(
                0,
                j as int,
            )).push(user@[j as int]));
        }
        j = j + 1;
    }
    proof {
        assert(user@.subrange(0, user@.len() as int) =~= user@);
        assert forall|k: Key|
            spec_lookup(r@, k) == (match spec_lookup(user@, k) {
                Some(a) => Some(a),
                None => spec_lookup(defaults@, k),
            }) by {
            lemma_lookup_append(defaults@, user@, k);
        }
    }
    r
}

} // verus!
