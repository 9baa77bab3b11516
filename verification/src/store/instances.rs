//! LibreNMS servers.
use crate::archive;
use crate::error::{Error, ErrorView, Result};
use crate::store;
use crate::store::rows;
use crate::store::rows::{Customer, CustomerView, InstanceView, LibreNmsInstance};
use crate::store::table;
use crate::store::table::{Record, Row};
use crate::store::{Store, StoreView};
use crate::text;
use vstd::prelude::*;
use vstd::utf8::*;

verus! {

/// A server called `name`, the one with the number `except` aside.
pub open spec fn name_taken(name: Seq<char>, except: Option<i64>) -> spec_fn(InstanceView) -> bool {
    |v: InstanceView| v.name == name && Some(v.id) != except
}

/// A customer on the server `id`.
pub open spec fn customer_on(id: i64) -> spec_fn(CustomerView) -> bool {
    |v: CustomerView| v.librenms_instance_id == id
}

/// A server that is in use.
pub open spec fn in_use() -> spec_fn(InstanceView) -> bool {
    |v: InstanceView| v.is_active
}

/// The order by number.
pub open spec fn by_id() -> spec_fn(InstanceView, InstanceView) -> bool {
    |a: InstanceView, b: InstanceView| a.id <= b.id
}

/// Why a server cannot be called `name`, where it cannot.
pub open spec fn name_fault(s: StoreView, name: Seq<char>, except: Option<i64>) -> Option<
    Seq<char>,
> {
    if table::any(s.instances, name_taken(name, except)) {
        Some(store::unique("librenms_instances.name"@))
    } else {
        None
    }
}

/// The store after a server has been added.
pub open spec fn with_instance(s: StoreView, v: InstanceView) -> StoreView {
    StoreView { instances: s.instances.push(v), ..s }
}

/// The store after the server at `i` has been changed.
pub open spec fn with_instance_at(s: StoreView, i: int, v: InstanceView) -> StoreView {
    StoreView { instances: s.instances.update(i, v), ..s }
}

/// The store after the server `id` has been changed by `f`; as it was where there is no such
/// server.
pub open spec fn instance_changed(
    s: StoreView,
    id: i64,
    f: spec_fn(InstanceView) -> InstanceView,
) -> StoreView {
    match table::find_row(s.instances, table::numbered::<LibreNmsInstance>(id)) {
        Some(i) => with_instance_at(s, i, f(s.instances[i])),
        None => s,
    }
}

/// The store after the server `id` has been removed.
pub open spec fn instance_removed(s: StoreView, id: i64) -> StoreView {
    match table::find_row(s.instances, table::numbered::<LibreNmsInstance>(id)) {
        Some(i) => StoreView { instances: s.instances.remove(i), ..s },
        None => s,
    }
}

proof fn lemma_add_keeps(s: StoreView, v: InstanceView)
    requires
        s.wf(),
        table::next_id(table::ids::<LibreNmsInstance>(s.instances)) == Some(v.id),
        !table::any(s.instances, name_taken(v.name, None)),
    ensures
        with_instance(s, v).wf(),
{
    table::lemma_push::<LibreNmsInstance>(s.instances, v);
    let n = s.instances.push(v);
    assert forall|i: int, j: int|
        #![trigger n[i], n[j]]
        0 <= i < j < n.len() implies n[i].name != n[j].name by {
        if j == s.instances.len() {
            assert(!name_taken(v.name, None)(s.instances[i]));
        }
    }
    assert forall|i: int|
        #![trigger s.customers[i]]
        0 <= i < s.customers.len() implies table::known::<LibreNmsInstance>(
        n,
        s.customers[i].librenms_instance_id,
    ) by {
    }
}

proof fn lemma_change_keeps(s: StoreView, i: int, v: InstanceView)
    requires
        s.wf(),
        0 <= i < s.instances.len(),
        v.id == s.instances[i].id,
        !table::any(s.instances, name_taken(v.name, Some(v.id))),
    ensures
        with_instance_at(s, i, v).wf(),
{
    table::lemma_update::<LibreNmsInstance>(s.instances, i, v);
    let n = s.instances.update(i, v);
    assert forall|a: int, b: int|
        #![trigger n[a], n[b]]
        0 <= a < b < n.len() implies n[a].name != n[b].name by {
        if a == i {
            assert(s.instances[a].id < s.instances[b].id);
            assert(!name_taken(v.name, Some(v.id))(s.instances[b]));
        } else if b == i {
            assert(s.instances[a].id < s.instances[b].id);
            assert(!name_taken(v.name, Some(v.id))(s.instances[a]));
        } else {
            assert(s.instances[a].name != s.instances[b].name);
        }
    }
    assert forall|k: int|
        #![trigger s.customers[k]]
        0 <= k < s.customers.len() implies table::known::<LibreNmsInstance>(
        n,
        s.customers[k].librenms_instance_id,
    ) by {
    }
}

proof fn lemma_rest_keeps(s: StoreView, i: int, v: InstanceView)
    requires
        s.wf(),
        0 <= i < s.instances.len(),
        v.id == s.instances[i].id,
        v.name == s.instances[i].name,
    ensures
        with_instance_at(s, i, v).wf(),
{
    assert forall|k: int| 0 <= k < s.instances.len() implies !name_taken(v.name, Some(v.id))(
        #[trigger] s.instances[k],
    ) by {
        if k < i {
            assert(s.instances[k].name != s.instances[i].name);
        } else if k > i {
            assert(s.instances[i].name != s.instances[k].name);
        }
    }
    lemma_change_keeps(s, i, v);
}

proof fn lemma_remove_keeps(s: StoreView, i: int)
    requires
        s.wf(),
        0 <= i < s.instances.len(),
        !table::any(s.customers, customer_on(s.instances[i].id)),
    ensures
        (StoreView { instances: s.instances.remove(i), ..s }).wf(),
{
    table::lemma_remove::<LibreNmsInstance>(s.instances, i);
    let n = s.instances.remove(i);
    assert forall|k: int|
        #![trigger s.customers[k]]
        0 <= k < s.customers.len() implies table::known::<LibreNmsInstance>(
        n,
        s.customers[k].librenms_instance_id,
    ) by {
        assert(!customer_on(s.instances[i].id)(s.customers[k]));
    }
}

impl Store {
    fn instance_name_fault(&self, name: &str, except: Option<i64>) -> (r: Option<String>)
        ensures
            text::optional(r) == name_fault(self@, name@, except),
    {
        let f = |t: &LibreNmsInstance| -> (b: bool)
            ensures
                b == name_taken(name@, except)(t@),
        {
            text::same(&t.name, name) && match except {
                Some(e) => t.id != e,
                None => true,
            }
        };
        if table::any_row(&self.instances, f, Ghost(name_taken(name@, except))) {
            Some(store::unique_text("librenms_instances.name"))
        } else {
            None
        }
    }

    /// Adds a server, in use from the start. Its name must be new.
    pub fn insert_libre_nms_instance(
        &mut self,
        name: &str,
        url: &str,
        api_token_enc: &[u8],
        now: &str,
    ) -> (r: Result<i64>)
        ensures
            match name_fault(old(self)@, name@, None) {
                Some(m) => r matches Err(e) && e@ == store::refused(
                    "insert librenms_instances"@,
                    m,
                ) && final(self)@ == old(self)@,
                None => match table::next_id(table::ids::<LibreNmsInstance>(old(self)@.instances)) {
                    None => r matches Err(e) && e@ == store::refused(
                        "insert librenms_instances"@,
                        store::full(),
                    ) && final(self)@ == old(self)@,
                    Some(id) => r == Result::<i64>::Ok(id) && final(self)@ == with_instance(
                        old(self)@,
                        InstanceView {
                            id,
                            name: name@,
                            url: url@,
                            api_token_enc: api_token_enc@,
                            is_active: true,
                            created_at: now@,
                        },
                    ),
                },
            },
            old(self)@.wf() ==> final(self)@.wf(),
    {
        match self.instance_name_fault(name, None) {
            Some(m) => return Err(store::refuse("insert librenms_instances", &m)),
            None => {},
        }
        let id: i64 = match table::fresh_id(&self.instances) {
            Some(id) => id,
            None => return Err(store::refuse("insert librenms_instances", &store::full_text())),
        };
        let mut token: Vec<u8> = Vec::new();
        token.extend_from_slice(api_token_enc);
        assert(token@ =~= api_token_enc@);
        let row = LibreNmsInstance {
            id,
            name: name.to_owned(),
            url: url.to_owned(),
            api_token_enc: token,
            is_active: true,
            created_at: now.to_owned(),
        };
        proof {
            table::lemma_views_push(self.instances@, row);
            if self@.wf() {
                lemma_add_keeps(self@, row@);
            }
        }
        self.instances.push(row);
        Ok(id)
    }

    /// The servers that are in use, by number.
    pub fn list_active_libre_nms_instances(&self) -> (r: Vec<LibreNmsInstance>)
        ensures
            table::same_rows(table::views(r@), self@.instances.filter(in_use())),
            table::ordered(table::views(r@), by_id()),
    {
        let f = |t: &LibreNmsInstance| -> (b: bool)
            ensures
                b == in_use()(t@),
        {
            t.is_active
        };
        sorted_by_id(table::select(&self.instances, f, Ghost(in_use())))
    }

    /// All servers, by number.
    pub fn list_all_libre_nms_instances(&self) -> (r: Vec<LibreNmsInstance>)
        ensures
            table::same_rows(table::views(r@), self@.instances),
            table::ordered(table::views(r@), by_id()),
    {
        sorted_by_id(table::all(&self.instances))
    }

    /// The server `id`.
    pub fn find_librenms_instance(&self, id: i64) -> (r: Option<LibreNmsInstance>)
        ensures
            table::found(r, self@.instances, table::numbered::<LibreNmsInstance>(id)),
    {
        table::at(&self.instances, table::position_of(&self.instances, id), Ghost(
            table::numbered::<LibreNmsInstance>(id),
        ))
    }

    /// Changes name, address and use of a server; its token stays. Nothing happens where there is
    /// no such server.
    pub fn update_librenms_instance(&mut self, id: i64, name: &str, url: &str, is_active: bool) -> (r:
        Result<()>)
        ensures
            match name_fault(old(self)@, name@, Some(id)) {
                Some(m) if table::known::<LibreNmsInstance>(old(self)@.instances, id) => r
                    matches Err(e) && e@ == store::refused("update librenms_instance"@, m)
                    && final(self)@ == old(self)@,
                _ => r is Ok && final(self)@ == instance_changed(
                    old(self)@,
                    id,
                    |v: InstanceView| InstanceView { name: name@, url: url@, is_active, ..v },
                ),
            },
            old(self)@.wf() ==> final(self)@.wf(),
    {
        proof {
            table::lemma_numbered::<LibreNmsInstance>(self@.instances, id);
        }
        match table::position_of(&self.instances, id) {
            None => Ok(()),
            Some(i) => {
                match self.instance_name_fault(name, Some(id)) {
                    Some(m) => return Err(store::refuse("update librenms_instance", &m)),
                    None => {},
                }
                let mut row = self.instances[i].copy();
                row.name = name.to_owned();
                row.url = url.to_owned();
                row.is_active = is_active;
                proof {
                    table::lemma_views_set(self.instances@, i as int, row);
                    if self@.wf() {
                        lemma_change_keeps(self@, i as int, row@);
                    }
                }
                self.instances.set(i, row);
                Ok(())
            },
        }
    }

    /// Takes a server into use or out of it.
    pub fn set_librenms_instance_active(&mut self, id: i64, is_active: bool)
        ensures
            final(self)@ == instance_changed(
                old(self)@,
                id,
                |v: InstanceView| InstanceView { is_active, ..v },
            ),
            old(self)@.wf() ==> final(self)@.wf(),
    {
        proof {
            table::lemma_numbered::<LibreNmsInstance>(self@.instances, id);
        }
        if let Some(i) = table::position_of(&self.instances, id) {
            let mut row = self.instances[i].copy();
            row.is_active = is_active;
            proof {
                table::lemma_views_set(self.instances@, i as int, row);
                if self@.wf() {
                    lemma_rest_keeps(self@, i as int, row@);
                }
            }
            self.instances.set(i, row);
        }
    }

    /// Replaces the token of a server.
    pub fn update_librenms_instance_token(&mut self, id: i64, api_token_enc: &[u8])
        ensures
            final(self)@ == instance_changed(
                old(self)@,
                id,
                |v: InstanceView| InstanceView { api_token_enc: api_token_enc@, ..v },
            ),
            old(self)@.wf() ==> final(self)@.wf(),
    {
        proof {
            table::lemma_numbered::<LibreNmsInstance>(self@.instances, id);
        }
        if let Some(i) = table::position_of(&self.instances, id) {
            let mut token: Vec<u8> = Vec::new();
            token.extend_from_slice(api_token_enc);
            assert(token@ =~= api_token_enc@);
            let mut row = self.instances[i].copy();
            row.api_token_enc = token;
            proof {
                table::lemma_views_set(self.instances@, i as int, row);
                if self@.wf() {
                    lemma_rest_keeps(self@, i as int, row@);
                }
            }
            self.instances.set(i, row);
        }
    }

    /// Removes a server, unless customers are on it.
    pub fn delete_librenms_instance(&mut self, id: i64) -> (r: Result<()>)
        ensures
            ({
                let n = old(self)@.customers.filter(customer_on(id)).len();
                if n > 0 {
                    r matches Err(e) && e@ == ErrorView::Database(
                        "instance "@ + text::dec_int(id as int) + " 仍被 "@ + text::dec(n)
                            + " 个 customer 引用,先迁移或停用"@,
                    ) && final(self)@ == old(self)@
                } else {
                    r is Ok && final(self)@ == instance_removed(old(self)@, id)
                }
            }),
            old(self)@.wf() ==> final(self)@.wf(),
    {
        let f = |t: &Customer| -> (b: bool)
            ensures
                b == customer_on(id)(t@),
        {
            t.librenms_instance_id == id
        };
        let n: usize = table::tally(&self.customers, f, Ghost(customer_on(id)));
        if n > 0 {
            let a = text::string_of(&text::number(id));
            let b = text::string_of(&text::digits(n as u64));
            let head = text::cat4("instance ", &a, " 仍被 ", &b);
            return Err(Error::Database(text::cat2(&head, " 个 customer 引用,先迁移或停用")));
        }
        proof {
            table::lemma_numbered::<LibreNmsInstance>(self@.instances, id);
            table::lemma_none(self@.customers, customer_on(id));
        }
        if let Some(i) = table::position_of(&self.instances, id) {
            proof {
                table::lemma_views_remove(self.instances@, i as int);
                if self@.wf() {
                    lemma_remove_keeps(self@, i as int);
                }
            }
            self.instances.remove(i);
        }
        Ok(())
    }

    /// Whether a server has a token: bytes that are not `env:` and a name, or the name of one of
    /// the environment variables that are set.
    pub fn librenms_instance_token_set(&self, id: i64, variables: &Vec<String>) -> (r: bool)
        ensures
            r == (match table::find_row(
                self@.instances,
                table::numbered::<LibreNmsInstance>(id),
            ) {
                Some(i) => token_set(self@.instances[i].api_token_enc, archive::strings(variables@)),
                None => false,
            }),
    {
        match table::position_of(&self.instances, id) {
            Some(i) => has_token(&self.instances[i].api_token_enc, variables),
            None => false,
        }
    }
}

/// Whether a token is set, given the names of the environment variables that are.
pub open spec fn token_set(token: Seq<u8>, variables: Seq<Seq<char>>) -> bool {
    let mark = encode_utf8("env:"@);
    if token.len() == 0 {
        false
    } else if token.len() >= mark.len() && token.take(mark.len() as int) == mark {
        exists|i: int|
            0 <= i < variables.len() && token.skip(mark.len() as int) == encode_utf8(
                #[trigger] variables[i],
            )
    } else {
        true
    }
}

fn bytes_at(v: &Vec<u8>, at: usize, b: &[u8]) -> (r: bool)
    ensures
        r == (at + b@.len() <= v@.len() && v@.subrange(at as int, at + b@.len()) == b@),
{
    let n: usize = v.len();
    if at > n || b.len() > n - at {
        return false;
    }
    let mut k: usize = 0;
    while k < b.len()
        invariant
            k <= b@.len(),
            n == v@.len(),
            at + b@.len() <= n,
            forall|j: int| 0 <= j < k ==> v@[at + j] == b@[j],
        decreases b@.len() - k,
    {
        if v[at + k] != b[k] {
            assert(v@.subrange(at as int, at + b@.len())[k as int] != b@[k as int]);
            return false;
        }
        k = k + 1;
    }
    assert(v@.subrange(at as int, at + b@.len()) =~= b@);
    true
}

/// Whether a token is set, given the names of the environment variables that are.
pub fn has_token(token: &Vec<u8>, variables: &Vec<String>) -> (r: bool)
    ensures
        r == token_set(token@, archive::strings(variables@)),
{
    let mark = "env:".as_bytes();
    if token.len() == 0 {
        return false;
    }
    assert(mark@.len() <= token@.len() ==> token@.subrange(0, mark@.len() as int)
        =~= token@.take(mark@.len() as int));
    if !bytes_at(token, 0, mark) {
        return true;
    }
    let n: usize = token.len();
    let start: usize = mark.len();
    let ghost names = archive::strings(variables@);
    let mut i: usize = 0;
    while i < variables.len()
        invariant
            i <= variables@.len(),
            n == token@.len(),
            start == mark@.len() <= n,
            mark@ == encode_utf8("env:"@),
            token@.len() > 0,
            token@.take(start as int) == mark@,
            names == archive::strings(variables@),
            forall|j: int|
                0 <= j < i ==> token@.skip(start as int) != encode_utf8(#[trigger] names[j]),
        decreases variables@.len() - i,
    {
        let name = variables[i].as_str().as_bytes();
        assert(names[i as int] == variables@[i as int]@);
        assert(start + name@.len() == n ==> token@.subrange(start as int, start + name@.len())
            =~= token@.skip(start as int));
        if name.len() == n - start && bytes_at(token, start, name) {
            return true;
        }
        i = i + 1;
    }
    false
}

fn sorted_by_id(rows: Vec<LibreNmsInstance>) -> (r: Vec<LibreNmsInstance>)
    ensures
        table::same_rows(table::views(r@), table::views(rows@)),
        table::ordered(table::views(r@), by_id()),
{
    let f = |a: &LibreNmsInstance, b: &LibreNmsInstance| -> (c: bool)
        ensures
            c == by_id()(a@, b@),
    {
        a.id <= b.id
    };
    table::sorted(rows, f, Ghost(by_id()))
}

// ---------------------------------------------------------------------------
// Laws
// ---------------------------------------------------------------------------

/// A server that has been added is found by its number, and so is every other as before.
pub proof fn law_instance_found(s: StoreView, v: InstanceView, other: i64)
    requires
        table::next_id(table::ids::<LibreNmsInstance>(s.instances)) == Some(v.id),
        other != v.id,
    ensures
        table::find_row(
            with_instance(s, v).instances,
            table::numbered::<LibreNmsInstance>(v.id),
        ) matches Some(i) && with_instance(s, v).instances[i] == v,
        table::find_row(
            with_instance(s, v).instances,
            table::numbered::<LibreNmsInstance>(other),
        ) == table::find_row(s.instances, table::numbered::<LibreNmsInstance>(other)),
{
    let n = with_instance(s, v).instances;
    let p = table::numbered::<LibreNmsInstance>(v.id);
    table::lemma_push::<LibreNmsInstance>(s.instances, v);
    assert(n.drop_last() =~= s.instances);
    assert forall|j: int| 0 <= j < s.instances.len() implies !p(#[trigger] n[j]) by {
        assert(n[j] == s.instances[j]);
    }
    assert(p(n[s.instances.len() as int]));
    table::lemma_found(n, p, s.instances.len() as int);
    assert(!table::numbered::<LibreNmsInstance>(other)(n.last()));
}

/// A name is free exactly where no other server has it.
pub proof fn law_name_free(s: StoreView, name: Seq<char>, except: Option<i64>)
    ensures
        name_fault(s, name, except) is None <==> forall|i: int|
            0 <= i < s.instances.len() && (#[trigger] s.instances[i]).name == name ==> Some(
                s.instances[i].id,
            ) == except,
{
    let p = name_taken(name, except);
    if table::any(s.instances, p) {
        let i = choose|i: int| 0 <= i < s.instances.len() && p(#[trigger] s.instances[i]);
        assert(s.instances[i].name == name);
    } else {
        assert forall|i: int|
            0 <= i < s.instances.len() && (#[trigger] s.instances[i]).name == name implies Some(
            s.instances[i].id,
        ) == except by {
            assert(!p(s.instances[i]));
        }
    }
}

/// A change of a server changes that server, as it says, and nothing else; a number that no server
/// has changes nothing.
pub proof fn law_instance_changed(
    s: StoreView,
    i: int,
    f: spec_fn(InstanceView) -> InstanceView,
    id: i64,
)
    requires
        s.wf(),
        0 <= i < s.instances.len(),
        forall|k: int| 0 <= k < s.instances.len() ==> (#[trigger] s.instances[k]).id != id,
    ensures
        instance_changed(s, s.instances[i].id, f) == (StoreView {
            instances: s.instances.update(i, f(s.instances[i])),
            ..s
        }),
        instance_changed(s, id, f) == s,
        instance_removed(s, id) == s,
{
    assert(LibreNmsInstance::row_id(s.instances[i]) == s.instances[i].id);
    table::law_one_row_per_number::<LibreNmsInstance>(s.instances, i);
    table::lemma_numbered::<LibreNmsInstance>(s.instances, id);
    if table::known::<LibreNmsInstance>(s.instances, id) {
        let k = choose|k: int|
            0 <= k < s.instances.len() && LibreNmsInstance::row_id(#[trigger] s.instances[k]) == id;
        assert(s.instances[k].id == id);
    }
}

/// After a server has been removed no server has its number, the others are as before and in the
/// same order, and nothing else has changed.
pub proof fn law_instance_removed(s: StoreView, i: int)
    requires
        s.wf(),
        0 <= i < s.instances.len(),
    ensures
        ({
            let t = instance_removed(s, s.instances[i].id);
            &&& t == (StoreView { instances: s.instances.remove(i), ..s })
            &&& forall|k: int|
                0 <= k < t.instances.len() ==> (#[trigger] t.instances[k]).id != s.instances[i].id
        }),
{
    let id = s.instances[i].id;
    assert(LibreNmsInstance::row_id(s.instances[i]) == id);
    table::law_one_row_per_number::<LibreNmsInstance>(s.instances, i);
    let n = s.instances.remove(i);
    assert forall|k: int| 0 <= k < n.len() implies (#[trigger] n[k]).id != id by {
        let j = if k < i { k } else { k + 1 };
        assert(n[k] == s.instances[j]);
        assert(LibreNmsInstance::row_id(s.instances[j]) != id);
    }
}

/// A server is still referred to exactly where a customer is on it.
pub proof fn law_instance_referred(s: StoreView, id: i64)
    ensures
        s.customers.filter(customer_on(id)).len() > 0 <==> exists|k: int|
            0 <= k < s.customers.len() && (#[trigger] s.customers[k]).librenms_instance_id == id,
{
    table::lemma_none(s.customers, customer_on(id));
    if table::any(s.customers, customer_on(id)) {
        let k = choose|k: int|
            0 <= k < s.customers.len() && customer_on(id)(#[trigger] s.customers[k]);
        assert(s.customers[k].librenms_instance_id == id);
    }
    if exists|k: int|
        0 <= k < s.customers.len() && (#[trigger] s.customers[k]).librenms_instance_id == id {
        let k = choose|k: int|
            0 <= k < s.customers.len() && (#[trigger] s.customers[k]).librenms_instance_id == id;
        assert(customer_on(id)(s.customers[k]));
    }
}

/// Every server in use is listed, no other is, and the numbers go up.
pub proof fn law_instances_listed(list: Seq<InstanceView>, s: StoreView, v: InstanceView)
    requires
        table::same_rows(list, s.instances.filter(in_use())),
        table::ordered(list, by_id()),
    ensures
        list.contains(v) <==> s.instances.contains(v) && v.is_active,
        forall|i: int, j: int|
            #![trigger list[i], list[j]]
            0 <= i < j < list.len() ==> list[i].id <= list[j].id,
{
    table::law_selected_rows(list, s.instances, in_use());
    assert forall|i: int, j: int|
        #![trigger list[i], list[j]]
        0 <= i < j < list.len() implies list[i].id <= list[j].id by {
        assert(by_id()(list[i], list[j]));
    }
}

/// A token that names a variable is set exactly where the variable is; any other is set unless it is
/// empty.
pub proof fn law_token_set(name: Seq<char>, token: Seq<u8>, variables: Seq<Seq<char>>)
    ensures
        token_set(encode_utf8("env:"@) + encode_utf8(name), variables) <==> exists|i: int|
            0 <= i < variables.len() && encode_utf8(#[trigger] variables[i]) == encode_utf8(name),
        !token_set(Seq::empty(), variables),
        token.len() > 0 && !(encode_utf8("env:"@).len() <= token.len() && token.take(
            encode_utf8("env:"@).len() as int,
        ) == encode_utf8("env:"@)) ==> token_set(token, variables),
{
    let m = encode_utf8("env:"@);
    let t = m + encode_utf8(name);
    reveal_strlit("env:");
    reveal_with_fuel(encode_utf8, 5);
    assert(t.take(m.len() as int) =~= m);
    assert(t.skip(m.len() as int) =~= encode_utf8(name));
}

} // verus!
