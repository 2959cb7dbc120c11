use vstd::prelude::*;

use crate::day::{day_wf, Day, DayView};

verus! {

/// A calendar date, held as plain year, month and day numbers.
#[derive(Clone, Copy, PartialEq, Eq, Structural, Debug, Hash)]
pub struct Date {
    pub year: i32,
    pub month: u8,
    pub day: u8,
}

/// Calendar order on dates: year first, then month, then day.
pub open spec fn date_le(a: Date, b: Date) -> bool {
    if a.year != b.year {
        a.year < b.year
    } else if a.month != b.month {
        a.month < b.month
    } else {
        a.day <= b.day
    }
}

impl Date {
    pub fn new(year: i32, month: u8, day: u8) -> (r: Date)
        ensures
            r == (Date { year, month, day }),
    {
        Date { year, month, day }
    }

    /// Calendar comparison, `self` on or before `other`.
    pub fn le(&self, other: &Date) -> (r: bool)
        ensures
            r == date_le(*self, *other),
    {
        if self.year != other.year {
            self.year < other.year
        } else if self.month != other.month {
            self.month < other.month
        } else {
            self.day <= other.day
        }
    }
}

impl Default for Date {
    /// The epoch date.
    fn default() -> (r: Self)
        ensures
            r == (Date { year: 1970, month: 1, day: 1 }),
    {
        Date { year: 1970, month: 1, day: 1 }
    }
}

/// A day stored under its date.
#[derive(Debug)]
pub struct DatedDay {
    pub date: Date,
    pub day: Day,
}

/// The days of one named context (an isolated workspace).
#[derive(Debug)]
pub struct ContextDays {
    pub name: String,
    pub days: Vec<DatedDay>,
}

/// The first day stored under `date`, if any.  Under unique dates it is the
/// only one.
pub open spec fn find_day(ds: Seq<DatedDay>, date: Date) -> Option<Day>
    decreases ds.len(),
{
    if ds.len() == 0 {
        None
    } else if ds[0].date == date {
        Some(ds[0].day)
    } else {
        find_day(ds.drop_first(), date)
    }
}

/// `ds` with `day` stored under `date`, replacing a day already there.
pub open spec fn upsert_day(ds: Seq<DatedDay>, date: Date, day: Day) -> Seq<DatedDay>
    decreases ds.len(),
{
    if ds.len() == 0 {
        seq![DatedDay { date, day }]
    } else if ds[0].date == date {
        seq![DatedDay { date, day }] + ds.drop_first()
    } else {
        seq![ds[0]] + upsert_day(ds.drop_first(), date, day)
    }
}

/// Some entry of `ds` is stored under `date`.
pub open spec fn has_date(ds: Seq<DatedDay>, date: Date) -> bool {
    exists|i: int| 0 <= i < ds.len() && ds[i].date == date
}

/// No two entries share a date.
pub open spec fn unique_dates(ds: Seq<DatedDay>) -> bool {
    forall|i: int, j: int| 0 <= i < j < ds.len() ==> ds[i].date != ds[j].date
}

/// The first context of the name, if any.
pub open spec fn find_context(cs: Seq<ContextDays>, name: Seq<char>) -> Option<ContextDays>
    decreases cs.len(),
{
    if cs.len() == 0 {
        None
    } else if cs[0].name@ == name {
        Some(cs[0])
    } else {
        find_context(cs.drop_first(), name)
    }
}

/// Some context carries the name.
pub open spec fn has_context(cs: Seq<ContextDays>, name: Seq<char>) -> bool {
    exists|i: int| 0 <= i < cs.len() && cs[i].name@ == name
}

/// No two contexts share a name.
pub open spec fn unique_context_names(cs: Seq<ContextDays>) -> bool {
    forall|i: int, j: int| 0 <= i < j < cs.len() ==> cs[i].name@ != cs[j].name@
}

/// Well-formedness of one context: unique dates, every day well-formed.
pub open spec fn context_wf(c: ContextDays) -> bool {
    &&& unique_dates(c.days@)
    &&& forall|i: int| 0 <= i < c.days@.len() ==> day_wf(#[trigger] c.days@[i].day@)
}

/// When `date` sits first at index `i`, `find_day` returns that day.
proof fn lemma_find_day_at(ds: Seq<DatedDay>, date: Date, i: int)
    requires
        0 <= i < ds.len(),
        ds[i].date == date,
        forall|j: int| 0 <= j < i ==> ds[j].date != date,
    ensures
        find_day(ds, date) == Some(ds[i].day),
    decreases i,
{
    if i == 0 {
    } else {
        assert forall|j: int| 0 <= j < i - 1 implies ds.drop_first()[j].date != date by {
            assert(ds.drop_first()[j] == ds[j + 1]);
        }
        assert(ds.drop_first()[i - 1] == ds[i]);
        lemma_find_day_at(ds.drop_first(), date, i - 1);
    }
}

/// When no entry matches, `find_day` finds none.
proof fn lemma_find_day_absent(ds: Seq<DatedDay>, date: Date)
    requires
        forall|j: int| 0 <= j < ds.len() ==> ds[j].date != date,
    ensures
        find_day(ds, date) is None,
    decreases ds.len(),
{
    if ds.len() > 0 {
        assert forall|j: int| 0 <= j < ds.len() - 1 implies ds.drop_first()[j].date != date by {
            assert(ds.drop_first()[j] == ds[j + 1]);
        }
        lemma_find_day_absent(ds.drop_first(), date);
    }
}

/// When the first match sits at index `i`, the upsert replaces it in place.
proof fn lemma_upsert_day_at(ds: Seq<DatedDay>, date: Date, day: Day, i: int)
    requires
        0 <= i < ds.len(),
        ds[i].date == date,
        forall|j: int| 0 <= j < i ==> ds[j].date != date,
    ensures
        upsert_day(ds, date, day) == ds.update(i, DatedDay { date, day }),
    decreases i,
{
    if i == 0 {
        assert(upsert_day(ds, date, day) =~= ds.update(0, DatedDay { date, day }));
    } else {
        assert forall|j: int| 0 <= j < i - 1 implies ds.drop_first()[j].date != date by {
            assert(ds.drop_first()[j] == ds[j + 1]);
        }
        assert(ds.drop_first()[i - 1] == ds[i]);
        lemma_upsert_day_at(ds.drop_first(), date, day, i - 1);
        assert(upsert_day(ds, date, day) =~= ds.update(i, DatedDay { date, day }));
    }
}

/// When no entry matches, the upsert appends.
proof fn lemma_upsert_day_absent(ds: Seq<DatedDay>, date: Date, day: Day)
    requires
        forall|j: int| 0 <= j < ds.len() ==> ds[j].date != date,
    ensures
        upsert_day(ds, date, day) == ds.push(DatedDay { date, day }),
    decreases ds.len(),
{
    if ds.len() == 0 {
        assert(upsert_day(ds, date, day) =~= ds.push(DatedDay { date, day }));
    } else {
        assert forall|j: int| 0 <= j < ds.len() - 1 implies ds.drop_first()[j].date != date by {
            assert(ds.drop_first()[j] == ds[j + 1]);
        }
        lemma_upsert_day_absent(ds.drop_first(), date, day);
        assert(upsert_day(ds, date, day) =~= ds.push(DatedDay { date, day }));
    }
}

/// Storing a day and then looking its date up returns exactly that day, and
/// the lookup of any other date is unaffected.
proof fn lemma_upsert_day_find(ds: Seq<DatedDay>, date: Date, day: Day, other: Date)
    ensures
        find_day(upsert_day(ds, date, day), date) == Some(day),
        other != date ==> find_day(upsert_day(ds, date, day), other) == find_day(ds, other),
    decreases ds.len(),
{
    if ds.len() == 0 {
    } else if ds[0].date == date {
        let u = upsert_day(ds, date, day);
        assert(u[0] == DatedDay { date, day });
        assert(u.drop_first() =~= ds.drop_first());
    } else {
        let u = upsert_day(ds, date, day);
        assert(u[0] == ds[0]);
        assert(u.drop_first() =~= upsert_day(ds.drop_first(), date, day));
        lemma_upsert_day_find(ds.drop_first(), date, day, other);
    }
}

/// Under unique names, any index whose context carries the name is the first
/// match, so `find_context` returns it.
proof fn lemma_find_context_unique(cs: Seq<ContextDays>, name: Seq<char>, i: int)
    requires
        unique_context_names(cs),
        0 <= i < cs.len(),
        cs[i].name@ == name,
    ensures
        find_context(cs, name) == Some(cs[i]),
    decreases i,
{
    if i == 0 {
    } else {
        assert(cs[0].name@ != cs[i].name@);
        assert forall|j: int| 0 <= j < i - 1 implies cs.drop_first()[j].name@ != name by {
            assert(cs.drop_first()[j] == cs[j + 1]);
        }
        assert forall|a: int, b: int| 0 <= a < b < cs.drop_first().len() implies cs.drop_first()[a].name@
            != cs.drop_first()[b].name@ by {
            assert(cs.drop_first()[a] == cs[a + 1]);
            assert(cs.drop_first()[b] == cs[b + 1]);
        }
        assert(cs.drop_first()[i - 1] == cs[i]);
        lemma_find_context_unique(cs.drop_first(), name, i - 1);
    }
}

/// The in-memory database: the days of every named context, and which
/// context is current.  Loading it from and saving it to disk is the front
/// end's business; the core only reads and rewrites this value.
#[derive(Debug)]
pub struct Database {
    context: String,
    contexts: Vec<ContextDays>,
}

impl Database {
    /// The current context's name.
    pub closed spec fn context_view(&self) -> Seq<char> {
        self.context@
    }

    /// All contexts, in creation order.
    pub closed spec fn contexts_view(&self) -> Seq<ContextDays> {
        self.contexts@
    }

    /// The day stored under `date` in the current context, if any.
    pub open spec fn spec_get(&self, date: Date) -> Option<Day> {
        match find_context(self.contexts_view(), self.context_view()) {
            Some(c) => find_day(c.days@, date),
            None => None,
        }
    }

    /// Well-formedness: context names are unique, the current name is among
    /// them, and every context is itself well-formed.
    pub open spec fn wf(&self) -> bool {
        &&& unique_context_names(self.contexts_view())
        &&& has_context(self.contexts_view(), self.context_view())
        &&& forall|i: int| 0 <= i < self.contexts_view().len() ==> context_wf(
            #[trigger] self.contexts_view()[i],
        )
    }

    /// The current context's name.
    pub fn context(&self) -> (r: &String)
        ensures
            r@ == self.context_view(),
    {
        &self.context
    }

    /// The names of all contexts, in creation order.
    pub fn contexts(&self) -> (r: Vec<String>)
        ensures
            r@.len() == self.contexts_view().len(),
            forall|i: int| 0 <= i < r@.len() ==> (#[trigger] r@[i])@ == self.contexts_view()[i].name@,
    {
        let mut r: Vec<String> = Vec::new();
        let mut k: usize = 0;
        while k < self.contexts.len()
            invariant
                k <= self.contexts.len(),
                r@.len() == k,
                forall|i: int| 0 <= i < k ==> (#[trigger] r@[i])@ == self.contexts@[i].name@,
            decreases self.contexts.len() - k,
        {
            r.push(self.contexts[k].name.clone());
            k += 1;
        }
        r
    }

    /// Switches to `context`, creating it empty when it does not exist yet.
    pub fn set_context(&mut self, context: String)
        requires
            old(self).wf(),
        ensures
            final(self).wf(),
            final(self).context_view() == context@,
            has_context(old(self).contexts_view(), context@) ==> final(self).contexts_view()
                == old(self).contexts_view(),
            !has_context(old(self).contexts_view(), context@) ==> ({
                let cs0 = old(self).contexts_view();
                let cs1 = final(self).contexts_view();
                &&& cs1.len() == cs0.len() + 1
                &&& cs1.drop_last() == cs0
                &&& cs1.last().name == context
                &&& cs1.last().days@.len() == 0
            }),
    {
        let ghost pre = old(self).contexts_view();
        let mut k: usize = 0;
        let mut found = false;
        while k < self.contexts.len() && !found
            invariant
                k <= self.contexts.len(),
                *self == *old(self),
                found ==> has_context(pre, context@),
                !found ==> forall|j: int| 0 <= j < k ==> pre[j].name@ != context@,
                pre == old(self).contexts_view(),
            decreases self.contexts.len() - k + (if found { 0int } else { 1int }),
        {
            if self.contexts[k].name == context {
                proof {
                    assert(pre[k as int].name@ == context@);
                }
                found = true;
            } else {
                k += 1;
            }
        }
        if !found {
            proof {
                assert(!has_context(pre, context@));
            }
            let fresh = ContextDays { name: context.clone(), days: Vec::new() };
            proof {
                assert(fresh.days@ =~= Seq::<DatedDay>::empty());
            }
            self.contexts.push(fresh);
            proof {
                assert forall|i: int| 0 <= i < self.contexts@.len() implies context_wf(
                    #[trigger] self.contexts@[i],
                ) by {
                    if i < pre.len() {
                        assert(self.contexts@[i] == pre[i]);
                    }
                }
                assert forall|a: int, b: int| 0 <= a < b < self.contexts@.len() implies self.contexts@[a].name@
                    != self.contexts@[b].name@ by {
                    if b == pre.len() as int {
                        assert(self.contexts@[a] == pre[a]);
                    }
                }
                assert(self.contexts@.drop_last() =~= pre);
                assert(self.contexts@.last().name@ == context@);
            }
        }
        self.context = context;
    }

    /// A borrow of the day stored under `date` in the current context.
    pub fn get(&self, date: &Date) -> (r: Option<&Day>)
        requires
            self.wf(),
        ensures
            match r {
                Some(d) => self.spec_get(*date) == Some(*d) && d.wf(),
                None => self.spec_get(*date) is None,
            },
    {
        let ghost cs = self.contexts_view();
        let mut k: usize = 0;
        while k < self.contexts.len()
            invariant
                self.wf(),
                cs == self.contexts_view(),
                k <= self.contexts.len(),
                forall|j: int| 0 <= j < k ==> cs[j].name@ != self.context_view(),
            decreases self.contexts.len() - k,
        {
            if self.contexts[k].name == self.context {
                proof {
                    lemma_find_context_unique(cs, self.context_view(), k as int);
                }
                let days = &self.contexts[k].days;
                let mut j: usize = 0;
                while j < days.len()
                    invariant
                        self.wf(),
                        cs == self.contexts_view(),
                        k < self.contexts.len(),
                        days@ == cs[k as int].days@,
                        find_context(cs, self.context_view()) == Some(cs[k as int]),
                        j <= days.len(),
                        forall|i: int| 0 <= i < j ==> days@[i].date != *date,
                    decreases days.len() - j,
                {
                    if days[j].date == *date {
                        proof {
                            lemma_find_day_at(days@, *date, j as int);
                            assert(context_wf(cs[k as int]));
                        }
                        return Some(&days[j].day);
                    }
                    j += 1;
                }
                proof {
                    lemma_find_day_absent(days@, *date);
                }
                return None;
            }
            k += 1;
        }
        proof {
            assert(has_context(cs, self.context_view()));
            assert(false);
        }
        None
    }

    /// Stores `day` under `date` in the current context, replacing what was
    /// there; every other date and context is untouched.
    pub fn set(&mut self, date: Date, day: Day)
        requires
            old(self).wf(),
            day.wf(),
        ensures
            final(self).wf(),
            final(self).context_view() == old(self).context_view(),
            final(self).spec_get(date) == Some(day),
            forall|other: Date|
                other != date ==> final(self).spec_get(other) == old(self).spec_get(other),
            final(self).contexts_view().len() == old(self).contexts_view().len(),
            forall|i: int|
                0 <= i < final(self).contexts_view().len() ==> (
                #[trigger] final(self).contexts_view()[i]).name
                    == old(self).contexts_view()[i].name,
            forall|i: int|
                0 <= i < final(self).contexts_view().len() && old(self).contexts_view()[i].name@
                    != old(self).context_view() ==> #[trigger] final(self).contexts_view()[i]
                    == old(self).contexts_view()[i],
    {
        let ghost pre = old(self).contexts_view();
        let ghost cur = old(self).context_view();
        let k = self.find_current_index();
        let ghost olddays = self.contexts@[k as int].days@;
        let j_opt = find_date_index(&self.contexts[k].days, &date);
        let c = vstd::std_specs::vec::vec_index_mut(&mut self.contexts, k);
        match j_opt {
            Some(j) => {
                let slot = vstd::std_specs::vec::vec_index_mut(&mut c.days, j);
                slot.day = day;
                proof {
                    assert(c.days@ == olddays.update(j as int, DatedDay { date, day }));
                    lemma_upsert_day_at(olddays, date, day, j as int);
                }
            },
            None => {
                c.days.push(DatedDay { date, day });
                proof {
                    lemma_upsert_day_absent(olddays, date, day);
                }
            },
        }
        proof {
            let posts = self.contexts@;
            assert(posts == pre.update(
                k as int,
                ContextDays { name: pre[k as int].name, days: posts[k as int].days },
            ));
            assert(posts[k as int].days@ == upsert_day(olddays, date, day));
            lemma_upsert_day_find(olddays, date, day, date);
            assert forall|i: int, jj: int| 0 <= i < jj < posts.len() implies posts[i].name@
                != posts[jj].name@ by {
                assert(posts[i].name == pre[i].name);
                assert(posts[jj].name == pre[jj].name);
            }
            assert(posts[k as int].name@ == cur);
            assert(has_context(posts, cur));
            assert forall|i: int| 0 <= i < posts.len() implies context_wf(#[trigger] posts[i]) by {
                if i != k as int {
                    assert(posts[i] == pre[i]);
                } else {
                    lemma_upsert_preserves_context_wf(olddays, date, day);
                }
            }
            lemma_find_context_unique(pre, cur, k as int);
            lemma_find_context_unique(posts, cur, k as int);
            assert forall|other: Date| other != date implies self.spec_get(other) == old(
                self,
            ).spec_get(other) by {
                lemma_upsert_day_find(olddays, date, day, other);
            }
        }
    }

    /// The days of the current context, each under its date.
    pub fn days(&self) -> (r: &Vec<DatedDay>)
        requires
            self.wf(),
        ensures
            Some(r@) == match find_context(self.contexts_view(), self.context_view()) {
                Some(c) => Some(c.days@),
                None => None,
            },
    {
        let k = self.find_current_index();
        &self.contexts[k].days
    }

    /// The index of the current context, which well-formedness guarantees to
    /// exist.
    fn find_current_index(&self) -> (k: usize)
        requires
            self.wf(),
        ensures
            k < self.contexts_view().len(),
            self.contexts_view()[k as int].name@ == self.context_view(),
            find_context(self.contexts_view(), self.context_view()) == Some(
                self.contexts_view()[k as int],
            ),
    {
        let ghost cs = self.contexts_view();
        let mut k: usize = 0;
        while k < self.contexts.len()
            invariant
                self.wf(),
                cs == self.contexts_view(),
                k <= self.contexts.len(),
                forall|j: int| 0 <= j < k ==> cs[j].name@ != self.context_view(),
            decreases self.contexts.len() - k,
        {
            if self.contexts[k].name == self.context {
                proof {
                    lemma_find_context_unique(cs, self.context_view(), k as int);
                }
                return k;
            }
            k += 1;
        }
        proof {
            assert(has_context(cs, self.context_view()));
            assert(false);
        }
        0
    }

    /// The latest stored date in the current context on or before `today`,
    /// or nothing when no stored date qualifies.
    pub fn last_date(&self, today: &Date) -> (r: Option<Date>)
        requires
            self.wf(),
        ensures
            ({
                let ds = match find_context(self.contexts_view(), self.context_view()) {
                    Some(c) => c.days@,
                    None => Seq::empty(),
                };
                match r {
                    Some(d) => has_date(ds, d) && date_le(d, *today) && forall|i: int|
                        0 <= i < ds.len() && date_le(#[trigger] ds[i].date, *today) ==> date_le(
                            ds[i].date,
                            d,
                        ),
                    None => forall|i: int| 0 <= i < ds.len() ==> !date_le(
                        #[trigger] ds[i].date,
                        *today,
                    ),
                }
            }),
    {
        let k = self.find_current_index();
        let days = &self.contexts[k].days;
        let ghost ds = days@;
        let mut best: Option<Date> = None;
        let mut j: usize = 0;
        while j < days.len()
            invariant
                j <= days.len(),
                ds == days@,
                match best {
                    Some(d) => has_date(ds, d) && date_le(d, *today) && forall|i: int|
                        0 <= i < j && date_le(#[trigger] ds[i].date, *today) ==> date_le(
                            ds[i].date,
                            d,
                        ),
                    None => forall|i: int| 0 <= i < j ==> !date_le(
                        #[trigger] ds[i].date,
                        *today,
                    ),
                },
            decreases days.len() - j,
        {
            let d = days[j].date;
            if d.le(today) {
                match best {
                    Some(b) => {
                        if b.le(&d) {
                            best = Some(d);
                        }
                    },
                    None => {
                        best = Some(d);
                    },
                }
            }
            j += 1;
        }
        best
    }
}

/// The index of `date` in `days`, if it is stored there.
fn find_date_index(days: &Vec<DatedDay>, date: &Date) -> (r: Option<usize>)
    ensures
        match r {
            Some(j) => j < days@.len() && days@[j as int].date == *date && forall|i: int|
                0 <= i < j ==> days@[i].date != *date,
            None => forall|i: int| 0 <= i < days@.len() ==> days@[i].date != *date,
        },
{
    let mut j: usize = 0;
    while j < days.len()
        invariant
            j <= days.len(),
            forall|i: int| 0 <= i < j ==> days@[i].date != *date,
        decreases days.len() - j,
    {
        if days[j].date == *date {
            return Some(j);
        }
        j += 1;
    }
    None
}

/// Upserting a well-formed day keeps a context well-formed.
proof fn lemma_upsert_preserves_context_wf(ds: Seq<DatedDay>, date: Date, day: Day)
    requires
        unique_dates(ds),
        forall|i: int| 0 <= i < ds.len() ==> day_wf(#[trigger] ds[i].day@),
        day_wf(day@),
    ensures
        unique_dates(upsert_day(ds, date, day)),
        forall|i: int| 0 <= i < upsert_day(ds, date, day).len() ==> day_wf(
            #[trigger] upsert_day(ds, date, day)[i].day@,
        ),
    decreases ds.len(),
{
    if ds.len() == 0 {
    } else if ds[0].date == date {
        let u = upsert_day(ds, date, day);
        assert(u =~= ds.update(0, DatedDay { date, day }));
        assert forall|i: int| 0 <= i < u.len() implies day_wf(#[trigger] u[i].day@) by {
            if i == 0 {
                assert(u[0].day == day);
            } else {
                assert(u[i] == ds[i]);
                assert(day_wf(ds[i].day@));
            }
        }
    } else {
        assert forall|a: int, b: int| 0 <= a < b < ds.drop_first().len() implies ds.drop_first()[a].date
            != ds.drop_first()[b].date by {
            assert(ds.drop_first()[a] == ds[a + 1]);
            assert(ds.drop_first()[b] == ds[b + 1]);
        }
        assert forall|i: int| 0 <= i < ds.drop_first().len() implies day_wf(
            #[trigger] ds.drop_first()[i].day@,
        ) by {
            assert(ds.drop_first()[i] == ds[i + 1]);
        }
        lemma_upsert_preserves_context_wf(ds.drop_first(), date, day);
        let u = upsert_day(ds, date, day);
        let ur = upsert_day(ds.drop_first(), date, day);
        assert(u =~= seq![ds[0]] + ur);
        assert forall|i: int| 0 <= i < u.len() implies day_wf(#[trigger] u[i].day@) by {
            if i > 0 {
                assert(u[i] == ur[i - 1]);
                assert(day_wf(ur[i - 1].day@));
            } else {
                assert(u[0] == ds[0]);
                assert(day_wf(ds[0].day@));
            }
        }
        assert forall|a: int, b: int| 0 <= a < b < u.len() implies u[a].date != u[b].date by {
            if a == 0 {
                assert(u[b] == ur[b - 1]);
                lemma_upsert_day_dates(ds.drop_first(), date, day, b - 1);
            } else {
                assert(u[a] == ur[a - 1]);
                assert(u[b] == ur[b - 1]);
            }
        }
    }
}

/// Every date in an upserted sequence was either there before or is the
/// upserted date.
proof fn lemma_upsert_day_dates(ds: Seq<DatedDay>, date: Date, day: Day, i: int)
    requires
        0 <= i < upsert_day(ds, date, day).len(),
    ensures
        upsert_day(ds, date, day)[i].date == date || has_date(ds, upsert_day(ds, date, day)[i].date),
    decreases ds.len(),
{
    let u = upsert_day(ds, date, day);
    if ds.len() == 0 {
    } else if ds[0].date == date {
        if i > 0 {
            assert(u[i] == ds.drop_first()[i - 1]);
            assert(ds.drop_first()[i - 1] == ds[i]);
        }
    } else {
        if i == 0 {
            assert(u[0] == ds[0]);
        } else {
            assert(u[i] == upsert_day(ds.drop_first(), date, day)[i - 1]);
            lemma_upsert_day_dates(ds.drop_first(), date, day, i - 1);
            if has_date(ds.drop_first(), u[i].date) {
                let w = choose|w: int|
                    0 <= w < ds.drop_first().len() && ds.drop_first()[w].date == u[i].date;
                assert(ds[w + 1].date == u[i].date);
            }
        }
    }
}

impl Default for Database {
    /// A database holding a single empty context named `default`.
    fn default() -> (r: Self)
        ensures
            r.wf(),
            r.context_view() == "default"@,
            r.contexts_view().len() == 1,
            r.contexts_view()[0].name@ == "default"@,
            r.contexts_view()[0].days@.len() == 0,
            forall|d: Date| r.spec_get(d) is None,
    {
        let name: String = "default".to_owned();
        let days: Vec<DatedDay> = Vec::new();
        let contexts_vec: Vec<ContextDays> = Vec::new();
        let mut db = Database { context: "default".to_owned(), contexts: contexts_vec };
        db.contexts.push(ContextDays { name, days });
        proof {
            assert(db.contexts_view()[0].name@ == db.context_view());
            assert(has_context(db.contexts_view(), db.context_view()));
            assert forall|d: Date| db.spec_get(d) is None by {
                lemma_find_context_unique(db.contexts_view(), db.context_view(), 0);
            }
        }
        db
    }
}

} // verus!
