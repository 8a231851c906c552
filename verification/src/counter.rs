//! How many times each command was used, and the report that lists them.

use vstd::prelude::*;
use crate::text::{decimal, push_decimal, push_str};

verus! {

/// How many times `name` occurs as a command in the table `names`/`counts`.
pub open spec fn count_in(names: Seq<Seq<char>>, counts: Seq<nat>, name: Seq<char>) -> nat
    decreases names.len(),
{
    if names.len() == 0 || counts.len() == 0 {
        0
    } else if names.last() == name {
        counts.last()
    } else {
        count_in(names.drop_last(), counts.drop_last(), name)
    }
}

/// One line of the report.
pub open spec fn report_line(name: Seq<char>, count: nat) -> Seq<char> {
    "   >"@ + name + ": "@ + decimal(count) + "\n"@
}

/// The lines of the report, one per command, in table order.
pub open spec fn report_lines(names: Seq<Seq<char>>, counts: Seq<nat>) -> Seq<char>
    decreases names.len(),
{
    if names.len() == 0 || counts.len() == 0 {
        Seq::empty()
    } else {
        report_lines(names.drop_last(), counts.drop_last()) + report_line(names.last(), counts.last())
    }
}

/// The whole report.
pub open spec fn spec_report(names: Seq<Seq<char>>, counts: Seq<nat>) -> Seq<char> {
    "Commands used:\n"@ + report_lines(names, counts)
}

/// The table of command uses: each command name once, with its count.
pub struct CommandCounter {
    names: Vec<String>,
    counts: Vec<u64>,
}

impl CommandCounter {
    #[verifier::type_invariant]
    closed spec fn inv(self) -> bool {
        &&& self.names.len() == self.counts.len()
        &&& self.names.deep_view().no_duplicates()
    }

    /// The command names, in the order they were first used.
    pub closed spec fn spec_names(self) -> Seq<Seq<char>> {
        self.names.deep_view()
    }

    /// Their counts, in the same order.
    pub closed spec fn spec_counts(self) -> Seq<nat> {
        self.counts@.map_values(|c: u64| c as nat)
    }

    /// One count per name, and no name twice.
    pub open spec fn well_formed(self) -> bool {
        &&& self.spec_names().len() == self.spec_counts().len()
        &&& self.spec_names().no_duplicates()
    }

    /// How many times `name` was used.
    pub open spec fn spec_count(self, name: Seq<char>) -> nat {
        count_in(self.spec_names(), self.spec_counts(), name)
    }

    /// An empty table.
    pub fn new() -> (c: CommandCounter)
        ensures
            c.well_formed(),
            c.spec_names().len() == 0,
    {
        let c = CommandCounter { names: Vec::new(), counts: Vec::new() };
        assert(c.names.deep_view() =~= Seq::<Seq<char>>::empty());
        c
    }

    fn find(&self, name: &str) -> (found: Option<usize>)
        ensures
            self.well_formed(),
            found matches Some(i) ==> i < self.names.len() && self.spec_names()[i as int] == name@,
            found is None ==> !self.spec_names().contains(name@),
    {
        proof {
            use_type_invariant(self);
            assert(self.spec_counts().len() == self.counts@.len());
        }
        let mut i: usize = 0;
        while i < self.names.len()
            invariant
                i <= self.names.len(),
                self.well_formed(),
                forall|k: int| 0 <= k < i ==> self.names.deep_view()[k] != name@,
            decreases self.names.len() - i,
        {
            if same_name(&self.names[i], name) {
                return Some(i);
            }
            i = i + 1;
        }
        None
    }

    /// How many times `name` was used.
    pub fn count(&self, name: &str) -> (n: u64)
        ensures
            n == self.spec_count(name@),
    {
        proof {
            use_type_invariant(self);
        }
        match self.find(name) {
            Some(i) => {
                proof {
                    lemma_count_at(self.spec_names(), self.spec_counts(), i as int);
                }
                self.counts[i]
            },
            None => {
                proof {
                    lemma_count_absent(self.spec_names(), self.spec_counts(), name@);
                }
                0
            },
        }
    }

    /// Records one use of `name`: its count goes up by one, a new name joins
    /// the end of the table with count one, and nothing else changes.
    pub fn record(&mut self, name: &str)
        requires
            old(self).spec_count(name@) < u64::MAX,
        ensures
            final(self).well_formed(),
            old(self).spec_names().contains(name@) ==> {
                &&& final(self).spec_names() == old(self).spec_names()
                &&& final(self).spec_counts() == old(self).spec_counts().update(
                    old(self).spec_names().index_of(name@),
                    old(self).spec_count(name@) + 1,
                )
            },
            !old(self).spec_names().contains(name@) ==> {
                &&& final(self).spec_names() == old(self).spec_names().push(name@)
                &&& final(self).spec_counts() == old(self).spec_counts().push(1)
            },
    {
        proof {
            use_type_invariant(&*self);
        }
        match self.find(name) {
            Some(i) => {
                proof {
                    lemma_count_at(self.spec_names(), self.spec_counts(), i as int);
                    lemma_index_of_unique(self.spec_names(), i as int);
                }
                let n = self.counts[i] + 1;
                let mut counts = self.counts.clone();
                counts.set(i, n);
                let names = self.names.clone();
                assert(names.deep_view() =~= self.names.deep_view());
                *self = CommandCounter { names, counts };
                assert(self.spec_counts() =~= old(self).spec_counts().update(i as int, n as nat));
            },
            None => {
                let mut names = self.names.clone();
                let mut counts = self.counts.clone();
                assert(names.deep_view() =~= self.names.deep_view());
                names.push(copy_text(name));
                counts.push(1);
                assert(names.deep_view() =~= old(self).spec_names().push(name@));
                proof {
                    lemma_push_keeps_distinct(old(self).spec_names(), name@);
                }
                *self = CommandCounter { names, counts };
                assert(self.spec_counts() =~= old(self).spec_counts().push(1));
            },
        }
        proof {
            use_type_invariant(&*self);
        }
    }

    /// The report: a heading line, then one line per command with its count.
    pub fn report(&self) -> (r: String)
        ensures
            r@ == spec_report(self.spec_names(), self.spec_counts()),
    {
        proof {
            use_type_invariant(self);
        }
        let mut r = String::new();
        push_str(&mut r, "Commands used:\n");
        let ghost names = self.spec_names();
        let ghost counts = self.spec_counts();
        let mut i: usize = 0;
        while i < self.names.len()
            invariant
                i <= self.names.len(),
                self.names.len() == self.counts.len(),
                names == self.spec_names(),
                counts == self.spec_counts(),
                r@ == "Commands used:\n"@ + report_lines(names.take(i as int), counts.take(i as int)),
            decreases self.names.len() - i,
        {
            assert(names.take(i as int) == names.take(i + 1).drop_last());
            assert(counts.take(i as int) == counts.take(i + 1).drop_last());
            push_str(&mut r, "   >");
            push_str(&mut r, self.names[i].as_str());
            push_str(&mut r, ": ");
            push_decimal(&mut r, self.counts[i]);
            push_str(&mut r, "\n");
            assert(r@ =~= "Commands used:\n"@ + report_lines(names.take(i + 1), counts.take(i + 1)));
            i = i + 1;
        }
        assert(names.take(i as int) == names);
        assert(counts.take(i as int) == counts);
        r
    }
}

fn same_name(a: &String, b: &str) -> (same: bool)
    ensures
        same == (a@ == b@),
{
    crate::text::same_text(a.as_str(), b)
}

fn copy_text(s: &str) -> (t: String)
    ensures
        t@ == s@,
{
    let mut t = String::new();
    push_str(&mut t, s);
    assert(t@ =~= s@);
    t
}

/// In a table without repeated names, the count of the name at `i` is the count at `i`.
pub proof fn lemma_count_at(names: Seq<Seq<char>>, counts: Seq<nat>, i: int)
    requires
        names.len() == counts.len(),
        names.no_duplicates(),
        0 <= i < names.len(),
    ensures
        count_in(names, counts, names[i]) == counts[i],
    decreases names.len(),
{
    if i != names.len() - 1 {
        assert(names.last() != names[i]);
        assert(names.drop_last()[i] == names[i]);
        lemma_count_at(names.drop_last(), counts.drop_last(), i);
    }
}

/// A name that is not in the table has count zero.
pub proof fn lemma_count_absent(names: Seq<Seq<char>>, counts: Seq<nat>, name: Seq<char>)
    requires
        !names.contains(name),
    ensures
        count_in(names, counts, name) == 0,
    decreases names.len(),
{
    if names.len() > 0 && counts.len() > 0 {
        assert(names.last() == names[names.len() - 1]);
        assert forall|k: int| 0 <= k < names.drop_last().len() implies names.drop_last()[k] != name by {
            assert(names.drop_last()[k] == names[k]);
        }
        lemma_count_absent(names.drop_last(), counts.drop_last(), name);
    }
}

proof fn lemma_index_of_unique(names: Seq<Seq<char>>, i: int)
    requires
        names.no_duplicates(),
        0 <= i < names.len(),
    ensures
        names.contains(names[i]),
        names.index_of(names[i]) == i,
{
    let j = names.index_of(names[i]);
    assert(names.contains(names[i]));
    names.index_of_first_ensures(names[i]);
}

proof fn lemma_push_keeps_distinct(names: Seq<Seq<char>>, name: Seq<char>)
    requires
        names.no_duplicates(),
        !names.contains(name),
    ensures
        names.push(name).no_duplicates(),
{
    let s = names.push(name);
    assert forall|a: int, b: int| 0 <= a < s.len() && 0 <= b < s.len() && a != b implies s[a] != s[b] by {
        if a == names.len() {
            assert(s[b] == names[b]);
        } else if b == names.len() {
            assert(s[a] == names[a]);
        } else {
            assert(s[a] == names[a] && s[b] == names[b]);
        }
    }
}

/// Recording a use raises the count of that command by one and leaves every
/// other command's count as it was.
pub proof fn lemma_record_counts(
    names: Seq<Seq<char>>,
    counts: Seq<nat>,
    new_names: Seq<Seq<char>>,
    new_counts: Seq<nat>,
    name: Seq<char>,
    other: Seq<char>,
)
    requires
        names.len() == counts.len(),
        names.no_duplicates(),
        names.contains(name) ==> new_names == names && new_counts == counts.update(
            names.index_of(name),
            count_in(names, counts, name) + 1,
        ),
        !names.contains(name) ==> new_names == names.push(name) && new_counts == counts.push(1),
        other != name,
    ensures
        count_in(new_names, new_counts, name) == count_in(names, counts, name) + 1,
        count_in(new_names, new_counts, other) == count_in(names, counts, other),
{
    if names.contains(name) {
        let i = names.index_of(name);
        names.index_of_first_ensures(name);
        lemma_count_at(names, counts, i);
        lemma_count_at(new_names, new_counts, i);
        lemma_count_update_other(names, counts, i, count_in(names, counts, name) + 1, other);
    } else {
        lemma_count_absent(names, counts, name);
        assert(new_names.drop_last() == names);
        assert(new_counts.drop_last() == counts);
    }
}

proof fn lemma_count_update_other(names: Seq<Seq<char>>, counts: Seq<nat>, i: int, v: nat, other: Seq<char>)
    requires
        names.len() == counts.len(),
        0 <= i < names.len(),
        names[i] != other,
    ensures
        count_in(names, counts.update(i, v), other) == count_in(names, counts, other),
    decreases names.len(),
{
    let c2 = counts.update(i, v);
    if names.len() > 0 {
        if i < names.len() - 1 {
            assert(c2.drop_last() == counts.drop_last().update(i, v));
            assert(names.drop_last()[i] == names[i]);
            lemma_count_update_other(names.drop_last(), counts.drop_last(), i, v, other);
        } else {
            assert(c2.drop_last() == counts.drop_last());
        }
    }
}

} // verus!
