//! A company roster: departments with their employees, with commands to add,
//! remove, move and list them.
//!
//! The roster is seen in specifications as a sequence of pairs: a department
//! name with the names of its employees in the order they joined.  The names
//! of the departments are distinct and no department on the roster is empty.

use vstd::prelude::*;
use vstd::string::StringExecFns;

use crate::text::{
    join_with, lemma_lex_total, lemma_lex_trans, lex_leq, spec_trim, split_ws, str_eq, str_leq,
};

verus! {

/// What a roster holds: each department's name with its employees' names, in
/// the order they joined.
pub type RosterView = Seq<(Seq<char>, Seq<Seq<char>>)>;

/// A well-formed roster names each department once and keeps no empty
/// department.
pub open spec fn roster_wf(v: RosterView) -> bool {
    &&& forall|i: int, j: int| 0 <= i < j < v.len() ==> v[i].0 != v[j].0
    &&& forall|i: int| 0 <= i < v.len() ==> v[i].1.len() > 0
}

/// Whether the roster has a department of this name.
pub open spec fn has_dept(v: RosterView, name: Seq<char>) -> bool {
    exists|j: int| 0 <= j < v.len() && v[j].0 == name
}

/// The position of the department of this name.
pub open spec fn dept_idx(v: RosterView, name: Seq<char>) -> int {
    choose|j: int| 0 <= j < v.len() && v[j].0 == name
}

/// The employees of the department of this name.
pub open spec fn dept_emps(v: RosterView, name: Seq<char>) -> Seq<Seq<char>> {
    v[dept_idx(v, name)].1
}

/// On a well-formed roster the department of a name sits at one position
/// only.
pub proof fn lemma_dept_idx_is(v: RosterView, j: int)
    requires
        roster_wf(v),
        0 <= j < v.len(),
    ensures
        dept_idx(v, v[j].0) == j,
        has_dept(v, v[j].0),
{
    assert(has_dept(v, v[j].0));
    let j2 = dept_idx(v, v[j].0);
    if j2 != j {
        if j2 < j {
            assert(v[j2].0 != v[j].0);
        } else {
            assert(v[j].0 != v[j2].0);
        }
    }
}

/// Whether `e` is among the employees `emps`.
pub open spec fn emp_in(emps: Seq<Seq<char>>, e: Seq<char>) -> bool {
    exists|k: int| 0 <= k < emps.len() && emps[k] == e
}

/// Whether `k` is the first position of `e` among `emps`.
pub open spec fn is_first_idx(emps: Seq<Seq<char>>, e: Seq<char>, k: int) -> bool {
    &&& 0 <= k < emps.len()
    &&& emps[k] == e
    &&& forall|m: int| 0 <= m < k ==> emps[m] != e
}

/// The first position of `e` among `emps`.
pub open spec fn first_idx_of(emps: Seq<Seq<char>>, e: Seq<char>) -> int {
    choose|k: int| is_first_idx(emps, e, k)
}

/// An employee on the list has a first position there.
pub proof fn lemma_first_idx_exists(emps: Seq<Seq<char>>, e: Seq<char>)
    requires
        emp_in(emps, e),
    ensures
        is_first_idx(emps, e, first_idx_of(emps, e)),
    decreases emps.len(),
{
    if emps[0] == e {
        assert(is_first_idx(emps, e, 0));
    } else {
        let k = choose|k: int| 0 <= k < emps.len() && emps[k] == e;
        assert(emps.drop_first()[k - 1] == e);
        lemma_first_idx_exists(emps.drop_first(), e);
        let k1 = first_idx_of(emps.drop_first(), e);
        assert forall|m: int| 0 <= m < k1 + 1 implies emps[m] != e by {
            if m > 0 {
                assert(emps.drop_first()[m - 1] == emps[m]);
            }
        };
        assert(is_first_idx(emps, e, k1 + 1));
    }
}

/// The roster after an employee joins a department: appended to the
/// department of that name, or as a new department at the end of the roster.
pub open spec fn spec_add(v: RosterView, dept: Seq<char>, emp: Seq<char>) -> RosterView {
    if has_dept(v, dept) {
        let j = dept_idx(v, dept);
        v.update(j, (v[j].0, v[j].1.push(emp)))
    } else {
        v.push((dept, seq![emp]))
    }
}

/// Whether removing this employee from this department succeeds: the
/// department exists and lists the employee.
pub open spec fn remove_ok(v: RosterView, dept: Seq<char>, emp: Seq<char>) -> bool {
    has_dept(v, dept) && emp_in(dept_emps(v, dept), emp)
}

/// The roster after an employee leaves a department: the first entry of that
/// name leaves the department's list, and a department left empty leaves the
/// roster.  A roster without the department or the employee is unchanged.
pub open spec fn spec_remove(v: RosterView, dept: Seq<char>, emp: Seq<char>) -> RosterView {
    if !remove_ok(v, dept, emp) {
        v
    } else {
        let j = dept_idx(v, dept);
        let k = first_idx_of(v[j].1, emp);
        if v[j].1.len() == 1 {
            v.remove(j)
        } else {
            v.update(j, (v[j].0, v[j].1.remove(k)))
        }
    }
}

/// The message when a department is not on the roster.
pub open spec fn no_dept_msg(dept: Seq<char>) -> Seq<char> {
    "Department "@ + dept + " not found."@
}

/// The message when a department does not list an employee.
pub open spec fn no_emp_msg(emp: Seq<char>, dept: Seq<char>) -> Seq<char> {
    "Employee "@ + emp + " not found in the "@ + dept + " department."@
}

/// A roster of departments and their employees.
pub struct Company {
    data: Vec<(String, Vec<String>)>,
}

impl View for Company {
    type V = RosterView;

    closed spec fn view(&self) -> RosterView {
        self.data.deep_view()
    }
}

impl Default for Company {
    fn default() -> (r: Self)
        ensures
            r@ == Seq::<(Seq<char>, Seq<Seq<char>>)>::empty(),
            r.wf(),
    {
        Self::new()
    }
}

impl Company {
    /// A well-formed company: department names distinct, no empty
    /// department.
    pub open spec fn wf(&self) -> bool {
        roster_wf(self@)
    }

    /// Creates a company with an empty roster.
    pub fn new() -> (r: Self)
        ensures
            r@ == Seq::<(Seq<char>, Seq<Seq<char>>)>::empty(),
            r.wf(),
    {
        let c = Company { data: Vec::new() };
        proof {
            assert(c@ =~= Seq::<(Seq<char>, Seq<Seq<char>>)>::empty());
        }
        c
    }

    /// Finds the position of the department of this name on the roster.
    fn find_dept(&self, department: &str) -> (r: Option<usize>)
        ensures
            r matches Some(j) ==> 0 <= j < self@.len() && self@[j as int].0 == department@,
            r is None ==> !has_dept(self@, department@),
    {
        let mut j: usize = 0;
        while j < self.data.len()
            invariant
                j <= self.data@.len(),
                self@ == self.data.deep_view(),
                forall|m: int| 0 <= m < j ==> self@[m].0 != department@,
            decreases self.data@.len() - j,
        {
            proof {
                assert(self@[j as int].0 == self.data@[j as int].0@);
            }
            if str_eq(self.data[j].0.as_str(), department) {
                return Some(j);
            }
            j += 1;
        }
        None
    }

    /// Adds an employee to a department, creating the department if the
    /// roster does not have it yet.
    pub fn add_employee(&mut self, employee: &str, department: &str)
        requires
            old(self).wf(),
        ensures
            final(self).wf(),
            final(self)@ == spec_add(old(self)@, department@, employee@),
    {
        match self.find_dept(department) {
            Some(j) => {
                proof {
                    lemma_dept_idx_is(self@, j as int);
                }
                let mut entry = self.data.remove(j);
                entry.1.push(String::from_str(employee));
                self.data.insert(j, entry);
                proof {
                    assert(self@ =~~= spec_add(old(self)@, department@, employee@));
                }
            },
            None => {
                let mut emps: Vec<String> = Vec::new();
                emps.push(String::from_str(employee));
                self.data.push((String::from_str(department), emps));
                proof {
                    assert(emps.deep_view() =~= seq![employee@]);
                    assert(self@ =~~= old(self)@.push((department@, seq![employee@])));
                }
            },
        }
    }

    /// Removes an employee from a department: the first entry of that name
    /// leaves the department's list, and a department left empty leaves the
    /// roster.  Fails with a message when the roster has no such department,
    /// or the department no such employee.
    pub fn remove_employee(&mut self, employee: &str, department: &str) -> (r: Result<(), String>)
        requires
            old(self).wf(),
        ensures
            final(self).wf(),
            remove_ok(old(self)@, department@, employee@) ==> r is Ok && final(self)@
                == spec_remove(old(self)@, department@, employee@),
            !has_dept(old(self)@, department@) ==> (r matches Err(e) && e@ == no_dept_msg(
                department@,
            ) && final(self)@ == old(self)@),
            has_dept(old(self)@, department@) && !emp_in(
                dept_emps(old(self)@, department@),
                employee@,
            ) ==> (r matches Err(e) && e@ == no_emp_msg(employee@, department@) && final(self)@
                == old(self)@),
    {
        match self.find_dept(department) {
            Some(j) => {
                proof {
                    lemma_dept_idx_is(self@, j as int);
                }
                match Self::find_first(&self.data[j].1, employee) {
                    Some(k) => {
                        proof {
                            assert(self@[j as int].1 == self.data@[j as int].1.deep_view());
                            lemma_first_idx_exists(self@[j as int].1, employee@);
                            let k2 = first_idx_of(self@[j as int].1, employee@);
                            if k2 < k as int {
                                assert(self@[j as int].1[k2] != employee@);
                            } else if k2 > k as int {
                                assert(self@[j as int].1[k as int] != employee@);
                            }
                            assert(k2 == k as int);
                        }
                        let mut entry = self.data.remove(j);
                        entry.1.remove(k);
                        if entry.1.len() == 0 {
                            proof {
                                assert(old(self)@[j as int].1.remove(k as int).len() == 0);
                                assert(self@ =~~= old(self)@.remove(j as int));
                            }
                        } else {
                            self.data.insert(j, entry);
                            proof {
                                assert(self@ =~~= old(self)@.update(
                                    j as int,
                                    (
                                        old(self)@[j as int].0,
                                        old(self)@[j as int].1.remove(k as int),
                                    ),
                                ));
                            }
                        }
                        Ok(())
                    },
                    None => {
                        Err(
                            String::from_str("Employee ").concat(employee).concat(
                                " not found in the ",
                            ).concat(department).concat(" department."),
                        )
                    },
                }
            },
            None => {
                Err(String::from_str("Department ").concat(department).concat(" not found."))
            },
        }
    }

    /// Finds the first position of this employee on the list.
    fn find_first(emps: &Vec<String>, employee: &str) -> (r: Option<usize>)
        ensures
            r matches Some(k) ==> is_first_idx(emps.deep_view(), employee@, k as int),
            r is None ==> !emp_in(emps.deep_view(), employee@),
    {
        let mut k: usize = 0;
        while k < emps.len()
            invariant
                k <= emps@.len(),
                forall|m: int| 0 <= m < k ==> emps.deep_view()[m] != employee@,
            decreases emps@.len() - k,
        {
            proof {
                assert(emps.deep_view()[k as int] == emps@[k as int]@);
            }
            if str_eq(emps[k].as_str(), employee) {
                return Some(k);
            }
            k += 1;
        }
        None
    }

    /// Moves an employee from one department to another: removed from the
    /// first, then added to the second.  Fails with the removal's message,
    /// and leaves the roster unchanged, when the removal fails.
    pub fn move_employee(&mut self, employee: &str, from_department: &str, to_department: &str) ->
        (r: Result<(), String>)
        requires
            old(self).wf(),
        ensures
            final(self).wf(),
            remove_ok(old(self)@, from_department@, employee@) ==> r is Ok && final(self)@
                == spec_add(
                spec_remove(old(self)@, from_department@, employee@),
                to_department@,
                employee@,
            ),
            !has_dept(old(self)@, from_department@) ==> (r matches Err(e) && e@ == no_dept_msg(
                from_department@,
            ) && final(self)@ == old(self)@),
            has_dept(old(self)@, from_department@) && !emp_in(
                dept_emps(old(self)@, from_department@),
                employee@,
            ) ==> (r matches Err(e) && e@ == no_emp_msg(employee@, from_department@)
                && final(self)@ == old(self)@),
    {
        match self.remove_employee(employee, from_department) {
            Ok(()) => {
                self.add_employee(employee, to_department);
                Ok(())
            },
            Err(message) => Err(message),
        }
    }
}


/// Whether the character sequences stand in non-decreasing lexicographic
/// order.
pub open spec fn sorted_lex(s: Seq<Seq<char>>) -> bool {
    forall|i: int, j: int| 0 <= i < j < s.len() ==> lex_leq(s[i], s[j])
}

/// Whether `entries` presents the whole roster `v`: one entry per
/// department, names in ascending order, each department's employees in
/// ascending order.
pub open spec fn lists_all(v: RosterView, entries: RosterView) -> bool {
    &&& entries.len() == v.len()
    &&& forall|i: int, j: int| 0 <= i < j < entries.len() ==> lex_leq(entries[i].0, entries[j].0)
    &&& forall|i: int|
        0 <= i < entries.len() ==> has_dept(v, #[trigger] entries[i].0) && entries[
            i].1.to_multiset() == dept_emps(v, entries[i].0).to_multiset() && sorted_lex(
            entries[i].1,
        )
    &&& forall|j: int| 0 <= j < v.len() ==> has_dept(entries, #[trigger] v[j].0)
}

impl Company {
    /// Returns the strings rearranged into lexicographic order.
    fn sorted_strings(v: &Vec<String>) -> (r: Vec<String>)
        ensures
            r.deep_view().to_multiset() == v.deep_view().to_multiset(),
            sorted_lex(r.deep_view()),
            r@.len() == v@.len(),
    {
        let mut r: Vec<String> = Vec::new();
        let mut i: usize = 0;
        proof {
            assert(r.deep_view() =~= v.deep_view().take(0));
        }
        while i < v.len()
            invariant
                i <= v@.len(),
                r@.len() == i,
                sorted_lex(r.deep_view()),
                r.deep_view().to_multiset() == v.deep_view().take(i as int).to_multiset(),
            decreases v@.len() - i,
        {
            let x = v[i].clone();
            proof {
                assert(x@ == v.deep_view()[i as int]);
            }
            let ghost xv = x@;
            let mut p: usize = 0;
            while p < r.len() && str_leq(r[p].as_str(), x.as_str())
                invariant
                    p <= r@.len(),
                    forall|q: int| 0 <= q < p ==> lex_leq(#[trigger] r.deep_view()[q], xv),
                    xv == x@,
                decreases r@.len() - p,
            {
                proof {
                    assert(r.deep_view()[p as int] == r@[p as int]@);
                }
                p += 1;
            }
            let ghost old_r = r.deep_view();
            proof {
                if p < r@.len() {
                    assert(r.deep_view()[p as int] == r@[p as int]@);
                    lemma_lex_total(old_r[p as int], xv);
                    assert(lex_leq(xv, old_r[p as int]));
                }
            }
            r.insert(p, x);
            proof {
                assert(r.deep_view() =~= old_r.insert(p as int, xv));
                vstd::seq_lib::to_multiset_insert(old_r, p as int, xv);
                assert(v.deep_view().take(i + 1) =~= v.deep_view().take(i as int).push(xv));
                vstd::seq_lib::to_multiset_build(v.deep_view().take(i as int), xv);
                let dv = r.deep_view();
                assert forall|a: int, b: int| 0 <= a < b < dv.len() implies lex_leq(
                    dv[a],
                    dv[b],
                ) by {
                    if b < p {
                        assert(dv[a] == old_r[a]);
                        assert(dv[b] == old_r[b]);
                    } else if b == p {
                        assert(dv[a] == old_r[a]);
                        assert(dv[b] == xv);
                    } else if a == p {
                        assert(dv[a] == xv);
                        assert(dv[b] == old_r[b - 1]);
                        if b - 1 > p {
                            lemma_lex_trans(xv, old_r[p as int], old_r[b - 1]);
                        }
                    } else if a < p {
                        assert(dv[a] == old_r[a]);
                        assert(dv[b] == old_r[b - 1]);
                    } else {
                        assert(dv[a] == old_r[a - 1]);
                        assert(dv[b] == old_r[b - 1]);
                    }
                };
            }
            i += 1;
        }
        proof {
            assert(v.deep_view().take(v@.len() as int) =~= v.deep_view());
        }
        r
    }

    /// Lists the employees of a department in ascending order, or nothing
    /// when the roster has no department of that name.
    pub fn list_department(&self, department: &str) -> (r: Option<Vec<String>>)
        requires
            self.wf(),
        ensures
            !has_dept(self@, department@) ==> r is None,
            has_dept(self@, department@) ==> (r matches Some(emps)
                && emps.deep_view().to_multiset() == dept_emps(self@, department@).to_multiset()
                && sorted_lex(emps.deep_view()) && emps@.len() > 0),
    {
        match self.find_dept(department) {
            Some(j) => {
                proof {
                    lemma_dept_idx_is(self@, j as int);
                    assert(self@[j as int].1 == self.data@[j as int].1.deep_view());
                }
                let sorted = Self::sorted_strings(&self.data[j].1);
                if sorted.is_empty() {
                    None
                } else {
                    Some(sorted)
                }
            },
            None => None,
        }
    }

    /// Lists the whole roster: the departments in ascending order of name,
    /// each with its employees in ascending order.
    pub fn list_all(&self) -> (r: Vec<(String, Vec<String>)>)
        requires
            self.wf(),
        ensures
            lists_all(self@, r.deep_view()),
    {
        let mut result: Vec<(String, Vec<String>)> = Vec::new();
        let mut i: usize = 0;
        while i < self.data.len()
            invariant
                i <= self.data@.len(),
                self@ == self.data.deep_view(),
                self.wf(),
                result.deep_view().len() == i,
                forall|a: int, b: int|
                    0 <= a < b < i ==> lex_leq(
                        result.deep_view()[a].0,
                        result.deep_view()[b].0,
                    ),
                forall|a: int|
                    0 <= a < i ==> has_dept(self@, #[trigger] result.deep_view()[a].0)
                        && result.deep_view()[a].1.to_multiset() == dept_emps(
                        self@,
                        result.deep_view()[a].0,
                    ).to_multiset() && sorted_lex(result.deep_view()[a].1),
                forall|j: int| 0 <= j < i ==> has_dept(result.deep_view(), #[trigger] self@[j].0),
            decreases self.data@.len() - i,
        {
            let name = self.data[i].0.clone();
            let emps = Self::sorted_strings(&self.data[i].1);
            proof {
                lemma_dept_idx_is(self@, i as int);
                assert(name@ == self@[i as int].0);
                assert(self@[i as int].1 == self.data@[i as int].1.deep_view());
            }
            let mut p: usize = 0;
            while p < result.len() && str_leq(result[p].0.as_str(), name.as_str())
                invariant
                    p <= result@.len(),
                    forall|q: int|
                        0 <= q < p ==> lex_leq(#[trigger] result.deep_view()[q].0, name@),
                decreases result@.len() - p,
            {
                proof {
                    assert(result.deep_view()[p as int].0 == result@[p as int].0@);
                }
                p += 1;
            }
            let ghost old_rv = result.deep_view();
            proof {
                if p < result@.len() {
                    assert(result.deep_view()[p as int].0 == result@[p as int].0@);
                    lemma_lex_total(old_rv[p as int].0, name@);
                    assert(lex_leq(name@, old_rv[p as int].0));
                }
            }
            let ghost entry_view = (name@, emps.deep_view());
            result.insert(p, (name, emps));
            proof {
                let rv = result.deep_view();
                assert(rv =~~= old_rv.insert(p as int, entry_view));
                assert forall|a: int, b: int| 0 <= a < b < rv.len() implies lex_leq(
                    rv[a].0,
                    rv[b].0,
                ) by {
                    if b < p {
                        assert(rv[a] == old_rv[a]);
                        assert(rv[b] == old_rv[b]);
                    } else if b == p {
                        assert(rv[a] == old_rv[a]);
                        assert(rv[b] == entry_view);
                    } else if a == p {
                        assert(rv[a] == entry_view);
                        assert(rv[b] == old_rv[b - 1]);
                        if b - 1 > p {
                            lemma_lex_trans(entry_view.0, old_rv[p as int].0, old_rv[b - 1].0);
                        }
                    } else if a < p {
                        assert(rv[a] == old_rv[a]);
                        assert(rv[b] == old_rv[b - 1]);
                    } else {
                        assert(rv[a] == old_rv[a - 1]);
                        assert(rv[b] == old_rv[b - 1]);
                    }
                };
                assert forall|a: int| 0 <= a < rv.len() implies has_dept(
                    self@,
                    #[trigger] rv[a].0,
                ) && rv[a].1.to_multiset() == dept_emps(self@, rv[a].0).to_multiset()
                    && sorted_lex(rv[a].1) by {
                    if a < p {
                        assert(rv[a] == old_rv[a]);
                    } else if a == p {
                        assert(rv[a] == entry_view);
                    } else {
                        assert(rv[a] == old_rv[a - 1]);
                    }
                };
                assert forall|j: int| 0 <= j < i + 1 implies has_dept(
                    rv,
                    #[trigger] self@[j].0,
                ) by {
                    if j < i {
                        let a = choose|a: int| 0 <= a < old_rv.len() && old_rv[a].0 == self@[j].0;
                        if a < p {
                            assert(rv[a] == old_rv[a]);
                        } else {
                            assert(rv[a + 1] == old_rv[a]);
                        }
                    } else {
                        assert(rv[p as int] == entry_view);
                    }
                };
            }
            i += 1;
        }
        result
    }
}


/// Whether the words form an add command: `Add <employee> to <department>`.
pub open spec fn is_add_cmd(parts: Seq<Seq<char>>) -> bool {
    parts.len() >= 4 && parts[0] == "Add"@ && parts[2] == "to"@
}

/// Whether the words form a remove command:
/// `Remove <employee> from <department>`.
pub open spec fn is_remove_cmd(parts: Seq<Seq<char>>) -> bool {
    parts.len() >= 4 && parts[0] == "Remove"@ && parts[2] == "from"@
}

/// Whether the input, trimmed, is the list-all command `List All`.
pub open spec fn is_list_all_cmd(input: Seq<char>) -> bool {
    spec_trim(input) == "List All"@
}

/// Whether the words form a list command: `List <department>`.
pub open spec fn is_list_cmd(parts: Seq<Seq<char>>) -> bool {
    parts.len() == 2 && parts[0] == "List"@
}

/// Whether the words form a move command:
/// `Move <employee> from <department> to <department>`.
pub open spec fn is_move_cmd(parts: Seq<Seq<char>>) -> bool {
    parts.len() >= 6 && parts[0] == "Move"@ && parts[2] == "from"@ && parts[4] == "to"@
}

/// The reply to a successful add command.
pub open spec fn added_msg(emp: Seq<char>, dept: Seq<char>) -> Seq<char> {
    "Added "@ + emp + " to "@ + dept + " department."@
}

/// The reply to a successful remove command.
pub open spec fn removed_msg(emp: Seq<char>, dept: Seq<char>) -> Seq<char> {
    "Removed "@ + emp + " from the "@ + dept + " department."@
}

/// The reply to a successful move command.
pub open spec fn moved_msg(emp: Seq<char>, from: Seq<char>, to: Seq<char>) -> Seq<char> {
    "Moved "@ + emp + " from the "@ + from + " department to the "@ + to + " department."@
}

/// The reply to a list command for a department with these employees.
pub open spec fn dept_listing(dept: Seq<char>, emps: Seq<Seq<char>>) -> Seq<char> {
    "Employees in the "@ + dept + " department:\n"@ + join_with(emps, "\n"@)
}

/// The reply to a list command for an unknown department.
pub open spec fn no_emps_msg(dept: Seq<char>) -> Seq<char> {
    "No employees found in the "@ + dept + " department."@
}

/// One listing per entry, in order.
pub open spec fn listings_of(entries: RosterView) -> Seq<Seq<char>> {
    entries.map_values(|e: (Seq<char>, Seq<Seq<char>>)| dept_listing(e.0, e.1))
}

/// The reply to a list-all command showing these entries.
pub open spec fn render_all(entries: RosterView) -> Seq<char> {
    join_with(listings_of(entries), "\n\n"@)
}

impl Company {
    /// Carries out one textual command against the roster and returns the
    /// reply: `Add <emp> to <dept>`, `Remove <emp> from <dept>`, `List All`,
    /// `List <dept>`, `Move <emp> from <dept> to <dept>`, tried in that
    /// order; anything else is refused.
    pub fn process_input(&mut self, input: &str) -> (r: String)
        requires
            old(self).wf(),
        ensures
            final(self).wf(),
            is_add_cmd(split_ws(input@)) ==> final(self)@ == spec_add(
                old(self)@,
                split_ws(input@)[3],
                split_ws(input@)[1],
            ) && r@ == added_msg(split_ws(input@)[1], split_ws(input@)[3]),
            !is_add_cmd(split_ws(input@)) && is_remove_cmd(split_ws(input@)) ==> {
                &&& remove_ok(old(self)@, split_ws(input@)[3], split_ws(input@)[1])
                    ==> final(self)@ == spec_remove(
                    old(self)@,
                    split_ws(input@)[3],
                    split_ws(input@)[1],
                ) && r@ == removed_msg(split_ws(input@)[1], split_ws(input@)[3])
                &&& !has_dept(old(self)@, split_ws(input@)[3]) ==> final(self)@ == old(self)@
                    && r@ == no_dept_msg(split_ws(input@)[3])
                &&& has_dept(old(self)@, split_ws(input@)[3]) && !emp_in(
                    dept_emps(old(self)@, split_ws(input@)[3]),
                    split_ws(input@)[1],
                ) ==> final(self)@ == old(self)@ && r@ == no_emp_msg(
                    split_ws(input@)[1],
                    split_ws(input@)[3],
                )
            },
            !is_add_cmd(split_ws(input@)) && !is_remove_cmd(split_ws(input@)) && is_list_all_cmd(
                input@,
            ) ==> final(self)@ == old(self)@ && {
                &&& old(self)@.len() == 0 ==> r@ == "No employees found in the company."@
                &&& old(self)@.len() > 0 ==> exists|entries: RosterView|
                    lists_all(old(self)@, entries) && r@ == render_all(entries)
            },
            !is_add_cmd(split_ws(input@)) && !is_remove_cmd(split_ws(input@)) && !is_list_all_cmd(
                input@,
            ) && is_list_cmd(split_ws(input@)) ==> final(self)@ == old(self)@ && {
                &&& !has_dept(old(self)@, split_ws(input@)[1]) ==> r@ == no_emps_msg(
                    split_ws(input@)[1],
                )
                &&& has_dept(old(self)@, split_ws(input@)[1]) ==> exists|emps: Seq<Seq<char>>|
                    emps.to_multiset() == dept_emps(old(self)@, split_ws(input@)[1]).to_multiset()
                        && sorted_lex(emps) && r@ == dept_listing(split_ws(input@)[1], emps)
            },
            !is_add_cmd(split_ws(input@)) && !is_remove_cmd(split_ws(input@)) && !is_list_all_cmd(
                input@,
            ) && !is_list_cmd(split_ws(input@)) && is_move_cmd(split_ws(input@)) ==> {
                &&& remove_ok(old(self)@, split_ws(input@)[3], split_ws(input@)[1])
                    ==> final(self)@ == spec_add(
                    spec_remove(old(self)@, split_ws(input@)[3], split_ws(input@)[1]),
                    split_ws(input@)[5],
                    split_ws(input@)[1],
                ) && r@ == moved_msg(
                    split_ws(input@)[1],
                    split_ws(input@)[3],
                    split_ws(input@)[5],
                )
                &&& !has_dept(old(self)@, split_ws(input@)[3]) ==> final(self)@ == old(self)@
                    && r@ == no_dept_msg(split_ws(input@)[3])
                &&& has_dept(old(self)@, split_ws(input@)[3]) && !emp_in(
                    dept_emps(old(self)@, split_ws(input@)[3]),
                    split_ws(input@)[1],
                ) ==> final(self)@ == old(self)@ && r@ == no_emp_msg(
                    split_ws(input@)[1],
                    split_ws(input@)[3],
                )
            },
            !is_add_cmd(split_ws(input@)) && !is_remove_cmd(split_ws(input@)) && !is_list_all_cmd(
                input@,
            ) && !is_list_cmd(split_ws(input@)) && !is_move_cmd(split_ws(input@)) ==> final(self)@
                == old(self)@ && r@ == "Invalid command. Please try again."@,
    {
        let ghost ps = split_ws(input@);
        let parts = crate::text::split_whitespace_of(input);
        proof {
            assert(parts.deep_view() == ps);
            assert(parts@.len() == ps.len());
            assert forall|k: int| 0 <= k < parts@.len() implies parts@[k]@ == ps[k] by {
                assert(parts.deep_view()[k] == parts@[k]@);
            };
        }
        if parts.len() >= 4 && str_eq(parts[0], "Add") && str_eq(parts[2], "to") {
            let employee = parts[1];
            let department = parts[3];
            self.add_employee(employee, department);
            String::from_str("Added ").concat(employee).concat(" to ").concat(department).concat(
                " department.",
            )
        } else if parts.len() >= 4 && str_eq(parts[0], "Remove") && str_eq(parts[2], "from") {
            let employee = parts[1];
            let department = parts[3];
            match self.remove_employee(employee, department) {
                Ok(()) => String::from_str("Removed ").concat(employee).concat(
                    " from the ",
                ).concat(department).concat(" department."),
                Err(message) => message,
            }
        } else if str_eq(crate::text::trim_of(input), "List All") {
            let all = self.list_all();
            let ghost entries = all.deep_view();
            if all.is_empty() {
                String::from_str("No employees found in the company.")
            } else {
                let mut pieces: Vec<String> = Vec::new();
                let mut i: usize = 0;
                proof {
                    assert(pieces.deep_view() =~= listings_of(entries.take(0)));
                }
                while i < all.len()
                    invariant
                        i <= all@.len(),
                        entries == all.deep_view(),
                        pieces.deep_view() == listings_of(entries.take(i as int)),
                    decreases all@.len() - i,
                {
                    let ghost before = pieces.deep_view();
                    proof {
                        assert(entries[i as int] == (all@[i as int].0@, all@[
                            i as int].1.deep_view()));
                    }
                    let joined = crate::text::join_strs(&all[i].1, "\n");
                    let piece = String::from_str("Employees in the ").concat(
                        all[i].0.as_str(),
                    ).concat(" department:\n").concat(joined.as_str());
                    pieces.push(piece);
                    proof {
                        assert(piece@ == dept_listing(entries[i as int].0, entries[i as int].1));
                        assert(pieces.deep_view() =~= before.push(piece@));
                        assert(listings_of(entries.take(i + 1)) =~= before.push(piece@));
                    }
                    i += 1;
                }
                proof {
                    assert(entries.take(all@.len() as int) =~= entries);
                }
                let reply = crate::text::join_strs(&pieces, "\n\n");
                proof {
                    assert(reply@ == render_all(entries));
                }
                reply
            }
        } else if parts.len() == 2 && str_eq(parts[0], "List") {
            let department = parts[1];
            match self.list_department(department) {
                Some(employees) => {
                    let joined = crate::text::join_strs(&employees, "\n");
                    String::from_str("Employees in the ").concat(department).concat(
                        " department:\n",
                    ).concat(joined.as_str())
                },
                None => String::from_str("No employees found in the ").concat(department).concat(
                    " department.",
                ),
            }
        } else if parts.len() >= 6 && str_eq(parts[0], "Move") && str_eq(parts[2], "from")
            && str_eq(parts[4], "to") {
            let employee = parts[1];
            let from_department = parts[3];
            let to_department = parts[5];
            match self.move_employee(employee, from_department, to_department) {
                Ok(()) => String::from_str("Moved ").concat(employee).concat(" from the ").concat(
                    from_department,
                ).concat(" department to the ").concat(to_department).concat(" department."),
                Err(message) => message,
            }
        } else {
            String::from_str("Invalid command. Please try again.")
        }
    }
}

} // verus!
