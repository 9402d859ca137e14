use vstd::prelude::*;

use crate::text::str_eq;

verus! {

/// One credential row: a user name and its secret.
#[derive(Debug, Clone)]
pub struct UserEntry {
    pub name: String,
    pub pass: String,
}

/// The server's credential table: a mapping from user name to secret,
/// loaded once at startup and only read afterwards. Sessions borrow it
/// read-only; no locking is needed.
#[derive(Debug)]
pub struct UserTable {
    entries: Vec<UserEntry>,
}

/// The mapping a row list denotes: later rows override earlier ones.
pub open spec fn table_map(rows: Seq<UserEntry>) -> Map<Seq<char>, Seq<char>>
    decreases rows.len(),
{
    if rows.len() == 0 {
        Map::empty()
    } else {
        table_map(rows.drop_last()).insert(rows.last().name@, rows.last().pass@)
    }
}

impl View for UserTable {
    type V = Map<Seq<char>, Seq<char>>;

    closed spec fn view(&self) -> Map<Seq<char>, Seq<char>> {
        table_map(self.entries@)
    }
}

proof fn lemma_table_map_hit(rows: Seq<UserEntry>, j: int, key: Seq<char>)
    requires
        0 <= j < rows.len(),
        rows[j].name@ == key,
        forall|k: int| j < k < rows.len() ==> (#[trigger] rows[k]).name@ != key,
    ensures
        table_map(rows).contains_key(key),
        table_map(rows)[key] == rows[j].pass@,
    decreases rows.len(),
{
    if j == rows.len() - 1 {
    } else {
        assert(forall|k: int| j < k < rows.len() - 1 ==> (#[trigger] rows.drop_last()[k]).name@
            != key);
        lemma_table_map_hit(rows.drop_last(), j, key);
        assert(rows.last().name@ != key);
    }
}

proof fn lemma_table_map_miss(rows: Seq<UserEntry>, key: Seq<char>)
    requires
        forall|k: int| 0 <= k < rows.len() ==> (#[trigger] rows[k]).name@ != key,
    ensures
        !table_map(rows).contains_key(key),
    decreases rows.len(),
{
    if rows.len() > 0 {
        assert(forall|k: int| 0 <= k < rows.len() - 1 ==> (#[trigger] rows.drop_last()[k]).name@
            != key);
        lemma_table_map_miss(rows.drop_last(), key);
    }
}

impl UserTable {
    /// An empty table.
    pub fn new() -> (r: UserTable)
        ensures
            r@ == Map::<Seq<char>, Seq<char>>::empty(),
    {
        let r = UserTable { entries: Vec::new() };
        proof {
            assert(r.entries@.len() == 0);
        }
        r
    }

    /// Adds one credential row; a repeated name overrides the earlier
    /// secret, as a map insert would.
    pub fn add(&mut self, name: String, pass: String)
        ensures
            final(self)@ == old(self)@.insert(name@, pass@),
    {
        let ghost n = name@;
        let ghost p = pass@;
        self.entries.push(UserEntry { name, pass });
        proof {
            assert(self.entries@.drop_last() =~= old(self).entries@);
            assert(self.entries@.last().name@ == n);
            assert(self.entries@.last().pass@ == p);
        }
    }

    /// Looks up the secret recorded for `name`: exact, read-only lookup.
    pub fn lookup(&self, name: &str) -> (r: Option<&String>)
        ensures
            match r {
                Some(p) => self@.contains_key(name@) && p@ == self@[name@],
                None => !self@.contains_key(name@),
            },
    {
        let n = self.entries.len();
        let mut i: usize = n;
        while i > 0
            invariant
                i <= n,
                n == self.entries@.len(),
                forall|k: int| i <= k < n ==> (#[trigger] self.entries@[k]).name@ != name@,
            decreases i,
        {
            let e = &self.entries[i - 1];
            if str_eq(e.name.as_str(), name) {
                proof {
                    lemma_table_map_hit(self.entries@, i - 1, name@);
                }
                return Some(&self.entries[i - 1].pass);
            }
            i -= 1;
        }
        proof {
            lemma_table_map_miss(self.entries@, name@);
        }
        None
    }
}

} // verus!
