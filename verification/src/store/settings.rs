//! Settings, number sequences and template versions: rows that are found by a name.
use crate::error::{Error, ErrorView, Result};
use crate::store;
use crate::store::rows;
use crate::store::rows::{
    SequenceRow, SequenceView, SettingRow, SettingView, TemplateVersionRow, TemplateView,
};
use crate::store::table;
use crate::store::table::Record;
use crate::store::{Store, StoreView};
use crate::text;
use vstd::prelude::*;

verus! {

// ---------------------------------------------------------------------------
// Settings
// ---------------------------------------------------------------------------

/// The setting with this key.
pub open spec fn setting_named(key: Seq<char>) -> spec_fn(SettingView) -> bool {
    |v: SettingView| v.key == key
}

/// What a setting is set to.
pub open spec fn setting_value(s: StoreView, key: Seq<char>) -> Option<Seq<char>> {
    match table::find_row(s.settings, setting_named(key)) {
        Some(i) => Some(s.settings[i].value),
        None => None,
    }
}

/// The store after a setting has been set.
pub open spec fn with_setting(
    s: StoreView,
    key: Seq<char>,
    value: Seq<char>,
    now: Seq<char>,
) -> StoreView {
    let v = SettingView { key, value, updated_at: now };
    match table::find_row(s.settings, setting_named(key)) {
        Some(i) => StoreView { settings: s.settings.update(i, v), ..s },
        None => StoreView { settings: s.settings.push(v), ..s },
    }
}

proof fn lemma_setting_keeps(s: StoreView, key: Seq<char>, value: Seq<char>, now: Seq<char>)
    requires
        s.wf(),
    ensures
        with_setting(s, key, value, now).wf(),
{
    table::lemma_find_row(s.settings, setting_named(key));
    let n = with_setting(s, key, value, now).settings;
    assert forall|a: int, b: int|
        #![trigger n[a], n[b]]
        0 <= a < b < n.len() implies n[a].key != n[b].key by {
        match table::find_row(s.settings, setting_named(key)) {
            Some(i) => {
                assert(setting_named(key)(s.settings[i]));
                assert(n[a].key == s.settings[a].key && n[b].key == s.settings[b].key);
                assert(s.settings[a].key != s.settings[b].key);
            },
            None => {
                assert(!setting_named(key)(s.settings[a]));
                if b < s.settings.len() {
                    assert(s.settings[a].key != s.settings[b].key);
                }
            },
        }
    }
}

/// A setting reads back as it was set, and the others stay as they were.
pub proof fn law_setting_reads_back(
    s: StoreView,
    key: Seq<char>,
    value: Seq<char>,
    now: Seq<char>,
    other: Seq<char>,
)
    requires
        other != key,
    ensures
        setting_value(with_setting(s, key, value, now), key) == Some(value),
        setting_value(with_setting(s, key, value, now), other) == setting_value(s, other),
{
    let t = with_setting(s, key, value, now).settings;
    let p = setting_named(key);
    let q = setting_named(other);
    table::lemma_find_row(s.settings, p);
    table::lemma_find_row(s.settings, q);
    table::lemma_find_row(t, p);
    table::lemma_find_row(t, q);
    match table::find_row(s.settings, p) {
        Some(i) => {
            assert(p(s.settings[i]));
            assert(p(t[i]));
            assert forall|j: int| 0 <= j < i implies !p(#[trigger] t[j]) by {
                assert(!p(s.settings[j]));
            }
            table::lemma_found(t, p, i);
            assert forall|j: int| 0 <= j < t.len() implies q(#[trigger] t[j]) == q(
                s.settings[j],
            ) by {
            }
            lemma_same_search(s.settings, t, q);
        },
        None => {
            assert(t.drop_last() =~= s.settings);
            assert(p(t.last()));
            assert(!q(t.last()));
        },
    }
}

proof fn lemma_same_search<V>(a: Seq<V>, b: Seq<V>, p: spec_fn(V) -> bool)
    requires
        a.len() == b.len(),
        forall|j: int| 0 <= j < a.len() ==> p(#[trigger] b[j]) == p(a[j]),
    ensures
        table::find_row(a, p) == table::find_row(b, p),
{
    table::lemma_find_row(a, p);
    table::lemma_find_row(b, p);
    match table::find_row(a, p) {
        Some(i) => {
            assert(p(b[i]));
            assert forall|j: int| 0 <= j < i implies !p(#[trigger] b[j]) by {
                assert(!p(a[j]));
            }
            table::lemma_found(b, p, i);
        },
        None => {
            match table::find_row(b, p) {
                Some(i) => {
                    assert(p(a[i]));
                },
                None => {},
            }
        },
    }
}

// ---------------------------------------------------------------------------
// Sequences
// ---------------------------------------------------------------------------

/// The sequence with this name.
pub open spec fn sequence_named(name: Seq<char>) -> spec_fn(SequenceView) -> bool {
    |v: SequenceView| v.name == name
}

/// The number that a sequence gives out next: `from` the first time, then one more each time.
pub open spec fn next_number(s: StoreView, name: Seq<char>, from: i64) -> int {
    match table::find_row(s.sequences, sequence_named(name)) {
        Some(i) => s.sequences[i].next_value + 1,
        None => from as int,
    }
}

/// The store after a sequence has given out `n`.
pub open spec fn with_number(s: StoreView, name: Seq<char>, n: i64) -> StoreView {
    let v = SequenceView { name, next_value: n };
    match table::find_row(s.sequences, sequence_named(name)) {
        Some(i) => StoreView { sequences: s.sequences.update(i, v), ..s },
        None => StoreView { sequences: s.sequences.push(v), ..s },
    }
}

proof fn lemma_sequence_keeps(s: StoreView, name: Seq<char>, n: i64)
    requires
        s.wf(),
    ensures
        with_number(s, name, n).wf(),
{
    table::lemma_find_row(s.sequences, sequence_named(name));
    let t = with_number(s, name, n).sequences;
    assert forall|a: int, b: int|
        #![trigger t[a], t[b]]
        0 <= a < b < t.len() implies t[a].name != t[b].name by {
        match table::find_row(s.sequences, sequence_named(name)) {
            Some(i) => {
                assert(sequence_named(name)(s.sequences[i]));
                assert(t[a].name == s.sequences[a].name && t[b].name == s.sequences[b].name);
                assert(s.sequences[a].name != s.sequences[b].name);
            },
            None => {
                assert(!sequence_named(name)(s.sequences[a]));
                if b < s.sequences.len() {
                    assert(s.sequences[a].name != s.sequences[b].name);
                }
            },
        }
    }
}

/// Sequences count on their own: after a number has been given out, the same sequence gives out
/// the next one, whatever it is asked to start from, and the others are where they were.
pub proof fn law_sequence_counts(
    s: StoreView,
    name: Seq<char>,
    from: i64,
    again: i64,
    other: Seq<char>,
    n: i64,
)
    requires
        other != name,
        n == next_number(s, name, from),
    ensures
        next_number(with_number(s, name, n), name, again) == n + 1,
        next_number(with_number(s, name, n), other, again) == next_number(s, other, again),
{
    let t = with_number(s, name, n).sequences;
    let p = sequence_named(name);
    let q = sequence_named(other);
    table::lemma_find_row(s.sequences, p);
    table::lemma_find_row(t, q);
    table::lemma_find_row(s.sequences, q);
    match table::find_row(s.sequences, p) {
        Some(i) => {
            assert(p(s.sequences[i]));
            assert(p(t[i]));
            assert forall|j: int| 0 <= j < i implies !p(#[trigger] t[j]) by {
                assert(!p(s.sequences[j]));
            }
            table::lemma_found(t, p, i);
            assert forall|j: int| 0 <= j < t.len() implies q(#[trigger] t[j]) == q(
                s.sequences[j],
            ) by {
            }
            lemma_same_search(s.sequences, t, q);
        },
        None => {
            assert(t.drop_last() =~= s.sequences);
            assert(p(t.last()));
            assert(!q(t.last()));
        },
    }
}

// ---------------------------------------------------------------------------
// Template versions
// ---------------------------------------------------------------------------

/// The template with this name.
pub open spec fn template_named(name: Seq<char>) -> spec_fn(TemplateView) -> bool {
    |v: TemplateView| v.template_name == name
}

/// The order by name.
pub open spec fn by_name() -> spec_fn(TemplateView, TemplateView) -> bool {
    |a: TemplateView, b: TemplateView| !text::precedes(b.template_name, a.template_name)
}

/// The store after a template has been recorded. Notes on it stay.
pub open spec fn with_template(s: StoreView, v: TemplateView) -> StoreView {
    match table::find_row(s.templates, template_named(v.template_name)) {
        Some(i) => StoreView {
            templates: s.templates.update(i, TemplateView { notes: s.templates[i].notes, ..v }),
            ..s
        },
        None => StoreView { templates: s.templates.push(TemplateView { notes: None, ..v }), ..s },
    }
}

proof fn lemma_template_keeps(s: StoreView, v: TemplateView)
    requires
        s.wf(),
    ensures
        with_template(s, v).wf(),
{
    let name = v.template_name;
    table::lemma_find_row(s.templates, template_named(name));
    let t = with_template(s, v).templates;
    assert forall|a: int, b: int|
        #![trigger t[a], t[b]]
        0 <= a < b < t.len() implies t[a].template_name != t[b].template_name by {
        match table::find_row(s.templates, template_named(name)) {
            Some(i) => {
                assert(template_named(name)(s.templates[i]));
                assert(t[a].template_name == s.templates[a].template_name && t[b].template_name
                    == s.templates[b].template_name);
                assert(s.templates[a].template_name != s.templates[b].template_name);
            },
            None => {
                assert(!template_named(name)(s.templates[a]));
                if b < s.templates.len() {
                    assert(s.templates[a].template_name != s.templates[b].template_name);
                }
            },
        }
    }
}

proof fn lemma_name_order()
    ensures
        forall|a: TemplateView, b: TemplateView| #[trigger] by_name()(a, b) || by_name()(b, a),
        forall|a: TemplateView, b: TemplateView, c: TemplateView| #[trigger]
            by_name()(a, b) && #[trigger] by_name()(b, c) ==> by_name()(a, c),
{
    assert forall|a: TemplateView, b: TemplateView| #[trigger] by_name()(a, b) || by_name()(b, a) by {
        text::lemma_order_total(a.template_name, b.template_name);
    }
    assert forall|a: TemplateView, b: TemplateView, c: TemplateView| #[trigger]
        by_name()(a, b) && #[trigger] by_name()(b, c) implies by_name()(a, c) by {
        let (x, y, z) = (a.template_name, b.template_name, c.template_name);
        text::lemma_order_total(x, y);
        text::lemma_order_total(y, z);
        text::lemma_order_total(x, z);
        if text::precedes(z, x) {
            if text::precedes(x, y) {
                text::lemma_order_transitive(z, x, y);
            }
        }
    }
}

/// After a template has been recorded there is one row of its name, with what was recorded.
pub proof fn law_template_reads_back(s: StoreView, v: TemplateView)
    requires
        s.wf(),
    ensures
        ({
            let t = with_template(s, v).templates;
            table::find_row(t, template_named(v.template_name)) matches Some(i) && t[i]
                == (TemplateView { notes: t[i].notes, ..v }) && (forall|j: int|
                0 <= j < t.len() && j != i ==> (#[trigger] t[j]).template_name != v.template_name)
        }),
{
    lemma_template_keeps(s, v);
    let t = with_template(s, v).templates;
    let p = template_named(v.template_name);
    table::lemma_find_row(s.templates, p);
    table::lemma_find_row(t, p);
    let k = match table::find_row(s.templates, p) {
        Some(i) => i,
        None => s.templates.len() as int,
    };
    assert(p(t[k]));
    let i = table::find_row(t, p)->0;
    assert(p(t[i]));
    if i < k {
        assert(t[i].template_name != t[k].template_name);
    }
    assert(i == k);
    assert forall|j: int| 0 <= j < t.len() && j != i implies (#[trigger] t[j]).template_name
        != v.template_name by {
        if j < i {
            assert(t[j].template_name != t[i].template_name);
        } else {
            assert(t[i].template_name != t[j].template_name);
        }
    }
}

// ---------------------------------------------------------------------------
// Operations
// ---------------------------------------------------------------------------

impl Store {
    /// What a setting is set to.
    pub fn get_setting(&self, key: &str) -> (r: Option<String>)
        ensures
            text::optional(r) == setting_value(self@, key@),
    {
        let f = |t: &SettingRow| -> (b: bool)
            ensures
                b == setting_named(key@)(t@),
        {
            text::same(&t.key, key)
        };
        match table::position(&self.settings, f, Ghost(setting_named(key@))) {
            Some(i) => Some(self.settings[i].value.clone()),
            None => None,
        }
    }

    /// Sets a setting, new or not.
    pub fn set_setting(&mut self, key: &str, value: &str, now: &str)
        ensures
            final(self)@ == with_setting(old(self)@, key@, value@, now@),
            old(self)@.wf() ==> final(self)@.wf(),
    {
        let f = |t: &SettingRow| -> (b: bool)
            ensures
                b == setting_named(key@)(t@),
        {
            text::same(&t.key, key)
        };
        let row = SettingRow {
            key: key.to_owned(),
            value: value.to_owned(),
            updated_at: now.to_owned(),
        };
        proof {
            if self@.wf() {
                lemma_setting_keeps(self@, key@, value@, now@);
            }
        }
        match table::position(&self.settings, f, Ghost(setting_named(key@))) {
            Some(i) => {
                proof {
                    table::lemma_views_set(self.settings@, i as int, row);
                }
                self.settings.set(i, row);
            },
            None => {
                proof {
                    table::lemma_views_push(self.settings@, row);
                }
                self.settings.push(row);
            },
        }
    }

    /// Takes the next number of a sequence. A sequence that has never been asked starts at `from`.
    pub fn next_sequence(&mut self, name: &str, from: i64) -> (r: Result<i64>)
        ensures
            ({
                let n = next_number(old(self)@, name@, from);
                if n <= i64::MAX {
                    r == Result::<i64>::Ok(n as i64) && final(self)@ == with_number(
                        old(self)@,
                        name@,
                        n as i64,
                    )
                } else {
                    (r matches Err(e) && e@ == store::refused(
                        "update sequence"@,
                        "integer overflow"@,
                    )) && final(self)@ == old(self)@
                }
            }),
            old(self)@.wf() ==> final(self)@.wf(),
    {
        let f = |t: &SequenceRow| -> (b: bool)
            ensures
                b == sequence_named(name@)(t@),
        {
            text::same(&t.name, name)
        };
        match table::position(&self.sequences, f, Ghost(sequence_named(name@))) {
            Some(i) => {
                let current: i64 = self.sequences[i].next_value;
                if current == i64::MAX {
                    return Err(store::refuse("update sequence", "integer overflow"));
                }
                let row = SequenceRow { name: name.to_owned(), next_value: current + 1 };
                proof {
                    if self@.wf() {
                        lemma_sequence_keeps(self@, name@, (current + 1) as i64);
                    }
                    table::lemma_views_set(self.sequences@, i as int, row);
                }
                self.sequences.set(i, row);
                Ok(current + 1)
            },
            None => {
                let row = SequenceRow { name: name.to_owned(), next_value: from };
                proof {
                    if self@.wf() {
                        lemma_sequence_keeps(self@, name@, from);
                    }
                    table::lemma_views_push(self.sequences@, row);
                }
                self.sequences.push(row);
                Ok(from)
            },
        }
    }

    /// All templates that have been recorded, by name.
    pub fn list_template_versions(&self) -> (r: Vec<TemplateVersionRow>)
        ensures
            table::same_rows(table::views(r@), self@.templates),
            table::ordered(table::views(r@), by_name()),
    {
        let g = |a: &TemplateVersionRow, b: &TemplateVersionRow| -> (c: bool)
            ensures
                c == by_name()(a@, b@),
        {
            !text::comes_before(&b.template_name, &a.template_name)
        };
        proof {
            lemma_name_order();
        }
        table::sorted(table::all(&self.templates), g, Ghost(by_name()))
    }

    /// The template with this name.
    pub fn find_template_version(&self, name: &str) -> (r: Option<TemplateVersionRow>)
        ensures
            table::found(r, self@.templates, template_named(name@)),
    {
        let f = |t: &TemplateVersionRow| -> (b: bool)
            ensures
                b == template_named(name@)(t@),
        {
            text::same(&t.template_name, name)
        };
        table::at(
            &self.templates,
            table::position(&self.templates, f, Ghost(template_named(name@))),
            Ghost(template_named(name@)),
        )
    }

    /// Records a template, in place of what was recorded under its name. Notes on it stay.
    pub(crate) fn put_template(&mut self, v: TemplateVersionRow)
        ensures
            final(self)@ == with_template(old(self)@, v@),
            old(self)@.wf() ==> final(self)@.wf(),
    {
        let name = v.template_name.clone();
        let f = |t: &TemplateVersionRow| -> (b: bool)
            ensures
                b == template_named(name@)(t@),
        {
            text::same(&t.template_name, &name)
        };
        proof {
            if self@.wf() {
                lemma_template_keeps(self@, v@);
            }
        }
        let mut row = v;
        match table::position(&self.templates, f, Ghost(template_named(name@))) {
            Some(i) => {
                row.notes = rows::copy_text(&self.templates[i].notes);
                proof {
                    table::lemma_views_set(self.templates@, i as int, row);
                }
                self.templates.set(i, row);
            },
            None => {
                row.notes = None;
                proof {
                    table::lemma_views_push(self.templates@, row);
                }
                self.templates.push(row);
            },
        }
    }
}

// ---------------------------------------------------------------------------
// Trying again
// ---------------------------------------------------------------------------

/// Whether an error speaks of a database that is busy, locked or could not be opened just now.
pub open spec fn transient(e: ErrorView) -> bool {
    let m = e.message();
    text::has(m, "database is locked"@) || text::has(m, "code: 5"@) || text::has(m, "code: 6"@)
        || text::has(m, "code: 14"@)
}

/// Whether an error speaks of a database that is busy, locked or could not be opened just now.
pub fn is_transient(e: &Error) -> (r: bool)
    ensures
        r == transient(e@),
{
    let m = text::chars_of(&e.message());
    text::find(&m, &text::chars_of("database is locked"), 0).is_some() || text::find(
        &m,
        &text::chars_of("code: 5"),
        0,
    ).is_some() || text::find(&m, &text::chars_of("code: 6"), 0).is_some() || text::find(
        &m,
        &text::chars_of("code: 14"),
        0,
    ).is_some()
}

/// How often taking a number is tried.
pub const SEQUENCE_TRIES: u32 = 50;

/// What to do after taking a number has failed.
pub enum SequenceStep {
    /// Wait this many milliseconds, then try again.
    Again(u64),
    /// Give up with this error.
    Stop(Error),
}

/// What to do after the try `attempt`, counted from zero, has failed with `e`: a transient error
/// is waited out fifty times, any other is final.
pub fn after_failed_number(name: &str, attempt: u32, e: Error) -> (r: SequenceStep)
    requires
        attempt < SEQUENCE_TRIES,
    ensures
        match r {
            SequenceStep::Again(ms) => transient(e@) && attempt + 1 < SEQUENCE_TRIES && ms == 50,
            SequenceStep::Stop(f) => if transient(e@) {
                attempt + 1 == SEQUENCE_TRIES && f@ == ErrorView::Database(
                    "next_sequence("@ + name@ + "): exhausted 50 retries on transient errors"@,
                )
            } else {
                f == e
            },
        },
{
    if is_transient(&e) {
        if attempt + 1 < SEQUENCE_TRIES {
            SequenceStep::Again(50)
        } else {
            SequenceStep::Stop(
                Error::Database(
                    text::cat3(
                        "next_sequence(",
                        name,
                        "): exhausted 50 retries on transient errors",
                    ),
                ),
            )
        }
    } else {
        SequenceStep::Stop(e)
    }
}

// ---------------------------------------------------------------------------
// Laws
// ---------------------------------------------------------------------------

/// What is set takes the place of what was set under that key, with the time; the rest of the store
/// stays.
pub proof fn law_setting_in_place(
    s: StoreView,
    key: Seq<char>,
    value: Seq<char>,
    now: Seq<char>,
    k: int,
)
    requires
        s.wf(),
        0 <= k < with_setting(s, key, value, now).settings.len(),
    ensures
        ({
            let t = with_setting(s, key, value, now);
            &&& if t.settings[k].key == key {
                t.settings[k].value == value && t.settings[k].updated_at == now
            } else {
                k < s.settings.len() && t.settings[k] == s.settings[k]
            }
            &&& t.settings.len() == s.settings.len() + (if exists|i: int|
                0 <= i < s.settings.len() && (#[trigger] s.settings[i]).key == key {
                0int
            } else {
                1
            })
            &&& t.customers == s.customers && t.sequences == s.sequences && t.templates
                == s.templates && t.invoices == s.invoices
        }),
{
    let p = setting_named(key);
    table::lemma_find_row(s.settings, p);
    match table::find_row(s.settings, p) {
        Some(i) => {
            assert(p(s.settings[i]));
            assert(s.settings[i].key == key);
            if k < i {
                assert(s.settings[k].key != s.settings[i].key);
            } else if i < k {
                assert(s.settings[i].key != s.settings[k].key);
            }
        },
        None => {
            assert forall|i: int| 0 <= i < s.settings.len() implies (#[trigger] s.settings[i]).key
                != key by {
                assert(!p(s.settings[i]));
            }
        },
    }
}

/// A sequence that has never been asked starts where it is told to; the number that was given out
/// last is kept, so that numbers never come twice.
pub proof fn law_sequence_starts(s: StoreView, name: Seq<char>, from: i64, i: int)
    requires
        s.wf(),
    ensures
        (forall|k: int| 0 <= k < s.sequences.len() ==> (#[trigger] s.sequences[k]).name != name)
            ==> next_number(s, name, from) == from,
        0 <= i < s.sequences.len() ==> next_number(s, s.sequences[i].name, from)
            == s.sequences[i].next_value + 1,
{
    let p = sequence_named(name);
    table::lemma_find_row(s.sequences, p);
    if let Some(k) = table::find_row(s.sequences, p) {
        assert(p(s.sequences[k]));
        assert(s.sequences[k].name == name);
    }
    if 0 <= i < s.sequences.len() {
        let q = sequence_named(s.sequences[i].name);
        table::lemma_find_row(s.sequences, q);
        assert(q(s.sequences[i]));
        let k = table::find_row(s.sequences, q)->0;
        assert(q(s.sequences[k]));
        if k < i {
            assert(s.sequences[k].name != s.sequences[i].name);
        } else if i < k {
            assert(s.sequences[i].name != s.sequences[k].name);
        }
    }
}

/// A template that is recorded anew keeps its notes, one that is new has none, and the other
/// templates stay as they were.
pub proof fn law_template_notes(s: StoreView, v: TemplateView, k: int)
    requires
        s.wf(),
        0 <= k < with_template(s, v).templates.len(),
    ensures
        ({
            let t = with_template(s, v);
            let w = t.templates[k];
            if w.template_name == v.template_name {
                &&& k < s.templates.len() ==> w.notes == s.templates[k].notes
                &&& k == s.templates.len() ==> w.notes is None
                &&& w == (TemplateView { notes: w.notes, ..v })
            } else {
                k < s.templates.len() && w == s.templates[k]
            }
        }),
{
    let p = template_named(v.template_name);
    table::lemma_find_row(s.templates, p);
    if let Some(i) = table::find_row(s.templates, p) {
        assert(p(s.templates[i]));
        if k < i {
            assert(s.templates[k].template_name != s.templates[i].template_name);
        } else if i < k {
            assert(s.templates[i].template_name != s.templates[k].template_name);
        }
    }
}

/// Templates are listed by name: no name comes behind one that it precedes.
pub proof fn law_templates_by_name(list: Seq<TemplateView>, i: int, j: int)
    requires
        table::ordered(list, by_name()),
        0 <= i < j < list.len(),
    ensures
        list[i].template_name == list[j].template_name || text::precedes(
            list[i].template_name,
            list[j].template_name,
        ),
{
    assert(by_name()(list[i], list[j]));
    text::lemma_order_total(list[i].template_name, list[j].template_name);
}

/// An error is waited out where its text says that the database is locked, or names one of three
/// codes, wherever in the text that stands, and in no other case.
pub proof fn law_transient(e: ErrorView, a: Seq<char>, b: Seq<char>)
    ensures
        transient(e) <==> (text::find_from(e.message(), "database is locked"@, 0) is Some
            || text::find_from(e.message(), "code: 5"@, 0) is Some || text::find_from(
            e.message(),
            "code: 6"@,
            0,
        ) is Some || text::find_from(e.message(), "code: 14"@, 0) is Some),
        e.message() == a + "database is locked"@ + b ==> transient(e),
        e.message() == a + "code: 5"@ + b ==> transient(e),
        e.message() == a + "code: 6"@ + b ==> transient(e),
        e.message() == a + "code: 14"@ + b ==> transient(e),
        SEQUENCE_TRIES == 50,
{
    text::law_found_where_it_stands(a, "database is locked"@, b);
    text::law_found_where_it_stands(a, "code: 5"@, b);
    text::law_found_where_it_stands(a, "code: 6"@, b);
    text::law_found_where_it_stands(a, "code: 14"@, b);
}

} // verus!
