use vstd::prelude::*;
use std::sync::Arc;
use vstd::string::{StrSliceExecFns, StringExecFns};
use crate::error::{KvError, error_response};
use crate::message::{
    CommandRequest, CommandResponse, Hget, Hgetall, Hset, Kvpair, RequestData, ResponseModel, Value,
    ValueModel, STATUS_OK, pairs_model, values_model, response_wf,
};
use crate::storage::{EntriesModel, MemTable, Storage, entries_unique, lookup, option_model};

verus! {

/// A request operation that can run against storage.
pub trait CommandService<S: Storage>: Sized {
    /// Whether `r` is a response that this operation may give, for some
    /// outcome of the storage call it makes.
    spec fn allows(self, store: &S, r: ResponseModel) -> bool;

    fn execute(self, store: &S) -> (r: CommandResponse)
        ensures
            self.allows(store, r@),
            response_wf(r@),
    ;
}

/// An observer of a value: called with it, changing nothing that the
/// service can see.
pub trait Notify<Arg> {
    fn notify(&self, arg: &Arg);
}

/// A hook that may change the value it is handed.
pub trait NotifyMut<Arg> {
    /// What the hook makes of `arg`.
    spec fn notified(&self, arg: Arg) -> Arg;

    fn notify(&self, arg: &mut Arg)
        ensures
            *final(arg) == self.notified(*old(arg)),
    ;
}

/// `arg` after each hook of `hooks`, first to last.
pub open spec fn notify_all<Arg, F: NotifyMut<Arg>>(hooks: Seq<F>, arg: Arg) -> Arg
    decreases hooks.len(),
{
    if hooks.len() == 0 {
        arg
    } else {
        hooks.last().notified(notify_all(hooks.drop_last(), arg))
    }
}

impl<Arg, F: Notify<Arg>> Notify<Arg> for Vec<F> {
    fn notify(&self, arg: &Arg) {
        let mut i: usize = 0;
        while i < self.len()
            invariant
                i <= self@.len(),
            decreases self@.len() - i,
        {
            self[i].notify(arg);
            i = i + 1;
        }
    }
}

impl<Arg, F: NotifyMut<Arg>> NotifyMut<Arg> for Vec<F> {
    open spec fn notified(&self, arg: Arg) -> Arg {
        notify_all(self@, arg)
    }

    fn notify(&self, arg: &mut Arg) {
        let mut i: usize = 0;
        while i < self.len()
            invariant
                i <= self@.len(),
                *arg == notify_all(self@.subrange(0, i as int), *old(arg)),
            decreases self@.len() - i,
        {
            assert(self@.subrange(0, i + 1).drop_last() =~= self@.subrange(0, i as int));
            self[i].notify(arg);
            i = i + 1;
        }
        assert(self@.subrange(0, self@.len() as int) =~= self@);
    }
}

/// A hook that does nothing.
pub struct NoHook;

impl<Arg> Notify<Arg> for NoHook {
    fn notify(&self, arg: &Arg) {
    }
}

impl<Arg> NotifyMut<Arg> for NoHook {
    open spec fn notified(&self, arg: Arg) -> Arg {
        arg
    }

    fn notify(&self, arg: &mut Arg) {
    }
}

/// The success response holding one value.
pub open spec fn value_response(v: ValueModel) -> ResponseModel {
    ResponseModel { status: STATUS_OK, message: None, values: seq![v], pairs: Seq::empty() }
}

/// The success response holding the given pairs.
pub open spec fn pairs_response(p: Seq<(Seq<char>, ValueModel)>) -> ResponseModel {
    ResponseModel { status: STATUS_OK, message: None, values: Seq::empty(), pairs: p }
}

/// The response to a get of `key` in `table`, given what storage returned.
pub open spec fn hget_model(table: String, key: String, got: Result<Option<Value>, KvError>) -> ResponseModel {
    match got {
        Ok(Some(v)) => value_response(v@),
        Ok(None) => error_response(KvError::NotFound(table, key)),
        Err(e) => error_response(e),
    }
}

/// The response to a get-all, given what storage returned.
pub open spec fn hgetall_model(got: Result<Vec<Kvpair>, KvError>) -> ResponseModel {
    match got {
        Ok(p) => pairs_response(pairs_model(p@)),
        Err(e) => error_response(e),
    }
}

/// The response to a set, given what storage returned: the value replaced,
/// or an empty value where the key is new.
pub open spec fn hset_model(got: Result<Option<Value>, KvError>) -> ResponseModel {
    match got {
        Ok(Some(v)) => value_response(v@),
        Ok(None) => value_response(ValueModel::Empty),
        Err(e) => error_response(e),
    }
}

/// The response to a request that carries no operation.
pub open spec fn invalid_command_response() -> ResponseModel {
    ResponseModel {
        status: crate::message::STATUS_BAD_REQUEST,
        message: Some("Invalid command: "@ + "Request has no data"@),
        values: Seq::empty(),
        pairs: Seq::empty(),
    }
}

/// The response to an operation that has no handler.
pub open spec fn not_implemented_response() -> ResponseModel {
    ResponseModel {
        status: crate::message::STATUS_INTERNAL,
        message: Some("Internal error: "@ + "Not implemented"@),
        values: Seq::empty(),
        pairs: Seq::empty(),
    }
}

/// Whether `r` is a response that dispatch may give for `cmd` against
/// `store`: the response that the handler makes of an outcome that the
/// storage call on the request's table, key and value may return.
pub open spec fn dispatch_allows<S: Storage>(cmd: CommandRequest, store: &S, r: ResponseModel) -> bool {
    match cmd.request_data {
        None => r == invalid_command_response(),
        Some(RequestData::Hget(h)) => h.allows(store, r),
        Some(RequestData::Hgetall(h)) => h.allows(store, r),
        Some(RequestData::Hset(h)) => h.allows(store, r),
        Some(_) => r == not_implemented_response(),
    }
}

/// The response to a get of `key` in `table`, given what storage returned.
pub fn hget_response(table: String, key: String, got: Result<Option<Value>, KvError>) -> (r: CommandResponse)
    ensures
        r@ == hget_model(table, key, got),
{
    match got {
        Ok(Some(v)) => CommandResponse::from_value(v),
        Ok(None) => CommandResponse::from_error(KvError::NotFound(table, key)),
        Err(e) => CommandResponse::from_error(e),
    }
}

/// The response to a get-all, given what storage returned.
pub fn hgetall_response(got: Result<Vec<Kvpair>, KvError>) -> (r: CommandResponse)
    ensures
        r@ == hgetall_model(got),
{
    match got {
        Ok(p) => CommandResponse::from_pairs(p),
        Err(e) => CommandResponse::from_error(e),
    }
}

/// The response to a set, given what storage returned.
pub fn hset_response(got: Result<Option<Value>, KvError>) -> (r: CommandResponse)
    ensures
        r@ == hset_model(got),
{
    match got {
        Ok(Some(v)) => CommandResponse::from_value(v),
        Ok(None) => CommandResponse::from_value(Value::Empty),
        Err(e) => CommandResponse::from_error(e),
    }
}

impl<S: Storage> CommandService<S> for Hget {
    open spec fn allows(self, store: &S, r: ResponseModel) -> bool {
        exists|got: Result<Option<Value>, KvError>|
            #[trigger] store.get_result(self.table@, self.key@, got) && r == hget_model(self.table, self.key, got)
    }

    fn execute(self, store: &S) -> (r: CommandResponse) {
        let got = store.get(self.table.as_str(), self.key.as_str());
        let r = hget_response(self.table, self.key, got);
        assert(r@ == hget_model(self.table, self.key, got));
        r
    }
}

impl<S: Storage> CommandService<S> for Hgetall {
    open spec fn allows(self, store: &S, r: ResponseModel) -> bool {
        exists|got: Result<Vec<Kvpair>, KvError>|
            #[trigger] store.get_all_result(self.table@, got) && r == hgetall_model(got)
    }

    fn execute(self, store: &S) -> (r: CommandResponse) {
        let got = store.get_all(self.table.as_str());
        let r = hgetall_response(got);
        assert(r@ == hgetall_model(got));
        r
    }
}

impl<S: Storage> CommandService<S> for Hset {
    open spec fn allows(self, store: &S, r: ResponseModel) -> bool {
        match self.pair {
            None => r == value_response(ValueModel::Empty),
            Some(p) => exists|got: Result<Option<Value>, KvError>|
                #[trigger] store.set_result(self.table@, p.key@, p.value@, got) && r == hset_model(got),
        }
    }

    fn execute(self, store: &S) -> (r: CommandResponse) {
        match self.pair {
            Some(p) => {
                let got = store.set(self.table.as_str(), p.key, p.value);
                let r = hset_response(got);
                assert(r@ == hset_model(got));
                r
            },
            None => CommandResponse::from_value(Value::Empty),
        }
    }
}

/// Run a request against storage. Every request gets a response: one with no
/// operation is an invalid command, one with no handler is not implemented.
pub fn dispatch<S: Storage>(cmd: CommandRequest, store: &S) -> (r: CommandResponse)
    ensures
        dispatch_allows(cmd, store, r@),
        response_wf(r@),
{
    match cmd.request_data {
        Some(RequestData::Hget(param)) => param.execute(store),
        Some(RequestData::Hgetall(param)) => param.execute(store),
        Some(RequestData::Hset(param)) => param.execute(store),
        None => CommandResponse::from_error(KvError::InvalidCommand(String::from_str("Request has no data"))),
        _ => CommandResponse::from_error(KvError::Internal(String::from_str("Not implemented"))),
    }
}

/// Storage with the hooks run around each request, in the order they were
/// registered.
pub struct ServiceInner<Store, R = NoHook, E = NoHook, B = NoHook, A = NoHook> {
    store: Store,
    on_received: Vec<R>,
    on_executed: Vec<E>,
    on_before_send: Vec<B>,
    on_after_send: Vec<A>,
}

impl<Store, R, E, B, A> ServiceInner<Store, R, E, B, A> {
    /// The storage that requests run against.
    pub closed spec fn store(&self) -> Store {
        self.store
    }

    /// The hooks that observe each request, in order.
    pub closed spec fn received_hooks(&self) -> Seq<R> {
        self.on_received@
    }

    /// The hooks that observe each response, in order.
    pub closed spec fn executed_hooks(&self) -> Seq<E> {
        self.on_executed@
    }

    /// The hooks that may change a response before it is sent, in order.
    pub closed spec fn before_send_hooks(&self) -> Seq<B> {
        self.on_before_send@
    }

    /// The hooks run once a response was sent, in order.
    pub closed spec fn after_send_hooks(&self) -> Seq<A> {
        self.on_after_send@
    }
}

impl<
    Store: Storage,
    R: Notify<CommandRequest>,
    E: Notify<CommandResponse>,
    B: NotifyMut<CommandResponse>,
    A: Notify<()>,
> ServiceInner<Store, R, E, B, A> {
    pub fn new(store: Store) -> (r: Self)
        ensures
            r.store() == store,
            r.received_hooks() == Seq::<R>::empty(),
            r.executed_hooks() == Seq::<E>::empty(),
            r.before_send_hooks() == Seq::<B>::empty(),
            r.after_send_hooks() == Seq::<A>::empty(),
    {
        let r = ServiceInner {
            store,
            on_received: Vec::new(),
            on_executed: Vec::new(),
            on_before_send: Vec::new(),
            on_after_send: Vec::new(),
        };
        assert(r.on_received@ =~= Seq::<R>::empty());
        assert(r.on_executed@ =~= Seq::<E>::empty());
        assert(r.on_before_send@ =~= Seq::<B>::empty());
        assert(r.on_after_send@ =~= Seq::<A>::empty());
        r
    }

    pub fn fn_received(self, f: R) -> (r: Self)
        ensures
            r.store() == self.store(),
            r.received_hooks() == self.received_hooks().push(f),
            r.executed_hooks() == self.executed_hooks(),
            r.before_send_hooks() == self.before_send_hooks(),
            r.after_send_hooks() == self.after_send_hooks(),
    {
        let mut inner = self;
        inner.on_received.push(f);
        inner
    }

    pub fn fn_executed(self, f: E) -> (r: Self)
        ensures
            r.store() == self.store(),
            r.received_hooks() == self.received_hooks(),
            r.executed_hooks() == self.executed_hooks().push(f),
            r.before_send_hooks() == self.before_send_hooks(),
            r.after_send_hooks() == self.after_send_hooks(),
    {
        let mut inner = self;
        inner.on_executed.push(f);
        inner
    }

    pub fn fn_before_send(self, f: B) -> (r: Self)
        ensures
            r.store() == self.store(),
            r.received_hooks() == self.received_hooks(),
            r.executed_hooks() == self.executed_hooks(),
            r.before_send_hooks() == self.before_send_hooks().push(f),
            r.after_send_hooks() == self.after_send_hooks(),
    {
        let mut inner = self;
        inner.on_before_send.push(f);
        inner
    }

    pub fn fn_after_send(self, f: A) -> (r: Self)
        ensures
            r.store() == self.store(),
            r.received_hooks() == self.received_hooks(),
            r.executed_hooks() == self.executed_hooks(),
            r.before_send_hooks() == self.before_send_hooks(),
            r.after_send_hooks() == self.after_send_hooks().push(f),
    {
        let mut inner = self;
        inner.on_after_send.push(f);
        inner
    }
}

/// A shared handle to one `ServiceInner`: clones see the same storage and hooks.
pub struct Service<Store = MemTable, R = NoHook, E = NoHook, B = NoHook, A = NoHook> {
    inner: Arc<ServiceInner<Store, R, E, B, A>>,
}

impl<Store, R, E, B, A> Service<Store, R, E, B, A> {
    /// The configuration that this handle shares.
    pub closed spec fn shared(&self) -> ServiceInner<Store, R, E, B, A> {
        *self.inner
    }
}

impl<Store, R, E, B, A> Clone for Service<Store, R, E, B, A> {
    fn clone(&self) -> (r: Self)
        ensures
            r.shared() == self.shared(),
    {
        Service { inner: Arc::clone(&self.inner) }
    }
}

impl<
    Store: Storage,
    R: Notify<CommandRequest>,
    E: Notify<CommandResponse>,
    B: NotifyMut<CommandResponse>,
    A: Notify<()>,
> Service<Store, R, E, B, A> {
    /// Freeze a configured `ServiceInner` into a shareable handle.
    pub fn from(inner: ServiceInner<Store, R, E, B, A>) -> (r: Self)
        ensures
            r.shared() == inner,
    {
        Service { inner: Arc::new(inner) }
    }

    /// Run a request: observe it, dispatch it against the shared storage,
    /// observe the response, then let each before-send hook change it, in the
    /// order they were registered.
    pub fn execute(&self, cmd: CommandRequest) -> (r: CommandResponse)
        ensures
            exists|d: CommandResponse|
                dispatch_allows(cmd, &self.shared().store(), #[trigger] d@) && r == notify_all(
                    self.shared().before_send_hooks(),
                    d,
                ),
    {
        self.inner.on_received.notify(&cmd);
        let ghost c = cmd;
        let mut res = dispatch(cmd, &self.inner.store);
        let ghost d = res;
        self.inner.on_executed.notify(&res);
        self.inner.on_before_send.notify(&mut res);
        assert(dispatch_allows(c, &self.shared().store(), d@));
        res
    }

    /// Run the hooks registered for after a response was sent.
    pub fn after_send(&self) {
        self.inner.on_after_send.notify(&());
    }
}

/// Before-send hooks registered as `a` then `b` change a response by `a`
/// first and then by `b`, so `b` sees what `a` made.
pub proof fn lemma_before_send_order<B: NotifyMut<CommandResponse>>(a: B, b: B, res: CommandResponse)
    ensures
        notify_all(seq![a, b], res) == b.notified(a.notified(res)),
{
    let s = seq![a, b];
    assert(s.drop_last() =~= seq![a]);
    assert(seq![a].drop_last() =~= Seq::<B>::empty());
    assert(notify_all(Seq::<B>::empty(), res) == res);
    assert(seq![a].last() == a);
    assert(s.last() == b);
    assert(notify_all(seq![a], res) == a.notified(res));
}

/// Whether `needle` occurs in `hay` as a run of consecutive characters.
pub open spec fn contains_text(hay: Seq<char>, needle: Seq<char>) -> bool {
    exists|i: int| 0 <= i && i + needle.len() <= hay.len() && #[trigger] hay.subrange(i, i + needle.len()) == needle
}

fn chars_of(s: &str) -> (r: Vec<char>)
    ensures
        r@ == s@,
{
    let n = s.unicode_len();
    let mut out: Vec<char> = Vec::new();
    let mut i: usize = 0;
    while i < n
        invariant
            n == s@.len(),
            i <= n,
            out@ == s@.subrange(0, i as int),
        decreases n - i,
    {
        out.push(s.get_char(i));
        assert(out@ =~= s@.subrange(0, i + 1));
        i = i + 1;
    }
    assert(out@ =~= s@);
    out
}

fn matches_at(hay: &Vec<char>, needle: &Vec<char>, at: usize) -> (r: bool)
    requires
        at + needle@.len() <= hay@.len(),
    ensures
        r == (hay@.subrange(at as int, at + needle@.len()) == needle@),
{
    let hl = hay.len();
    let mut j: usize = 0;
    while j < needle.len()
        invariant
            hl == hay@.len(),
            at + needle@.len() <= hay@.len(),
            j <= needle@.len(),
            hay@.subrange(at as int, at + j) =~= needle@.subrange(0, j as int),
        decreases needle@.len() - j,
    {
        if hay[at + j] != needle[j] {
            assert(hay@.subrange(at as int, at + needle@.len())[j as int] != needle@[j as int]);
            return false;
        }
        assert(hay@.subrange(at as int, at + j + 1) =~= needle@.subrange(0, j + 1));
        j = j + 1;
    }
    assert(needle@.subrange(0, needle@.len() as int) =~= needle@);
    true
}

fn contains_chars(hay: &Vec<char>, needle: &Vec<char>) -> (r: bool)
    ensures
        r == contains_text(hay@, needle@),
{
    if needle.len() > hay.len() {
        return false;
    }
    if needle.len() == 0 {
        assert(hay@.subrange(0int, 0int + needle@.len()) =~= needle@);
        return true;
    }
    let hl = hay.len();
    let last = hl - needle.len();
    let mut i: usize = 0;
    while i <= last
        invariant
            hl == hay@.len(),
            last + needle@.len() == hay@.len(),
            needle@.len() > 0,
            i <= last + 1,
            forall|k: int| 0 <= k < i ==> #[trigger] hay@.subrange(k, k + needle@.len()) != needle@,
        decreases last + 1 - i,
    {
        if matches_at(hay, needle, i) {
            return true;
        }
        i = i + 1;
    }
    assert forall|k: int| 0 <= k && k + needle@.len() <= hay@.len() implies #[trigger] hay@.subrange(
        k,
        k + needle@.len(),
    ) != needle@ by {
        assert(k <= last);
    }
    false
}

fn same_values(a: &Vec<Value>, b: &[Value]) -> (r: bool)
    ensures
        r == (values_model(a@) == values_model(b@)),
{
    if a.len() != b.len() {
        assert(values_model(a@).len() != values_model(b@).len());
        return false;
    }
    let mut i: usize = 0;
    while i < a.len()
        invariant
            a@.len() == b@.len(),
            i <= a@.len(),
            forall|k: int| 0 <= k < i ==> a@[k]@ == #[trigger] b@[k]@,
        decreases a@.len() - i,
    {
        if !a[i].same(&b[i]) {
            assert(values_model(a@)[i as int] != values_model(b@)[i as int]);
            return false;
        }
        i = i + 1;
    }
    assert(values_model(a@) =~= values_model(b@));
    true
}

/// How many times `x` occurs in `s`.
pub open spec fn count_of(s: Seq<(Seq<char>, ValueModel)>, x: (Seq<char>, ValueModel)) -> nat
    decreases s.len(),
{
    if s.len() == 0 {
        0
    } else {
        count_of(s.drop_last(), x) + if s.last() == x {
            1nat
        } else {
            0nat
        }
    }
}

/// Whether `a` and `b` hold the same pairs, each as often, in any order.
pub open spec fn same_pairs_unordered(a: Seq<(Seq<char>, ValueModel)>, b: Seq<(Seq<char>, ValueModel)>) -> bool {
    forall|x: (Seq<char>, ValueModel)| #[trigger] count_of(a, x) == count_of(b, x)
}

proof fn lemma_count_absent(s: Seq<(Seq<char>, ValueModel)>, x: (Seq<char>, ValueModel))
    requires
        forall|i: int| 0 <= i < s.len() ==> s[i] != x,
    ensures
        count_of(s, x) == 0,
    decreases s.len(),
{
    if s.len() > 0 {
        lemma_count_absent(s.drop_last(), x);
    }
}

fn count_pair(s: &[Kvpair], x: &Kvpair) -> (r: usize)
    ensures
        r == count_of(pairs_model(s@), x@),
{
    let mut c: usize = 0;
    let mut i: usize = 0;
    while i < s.len()
        invariant
            i <= s@.len(),
            c <= i,
            c == count_of(pairs_model(s@.subrange(0, i as int)), x@),
        decreases s@.len() - i,
    {
        assert(pairs_model(s@.subrange(0, i + 1)).drop_last() =~= pairs_model(s@.subrange(0, i as int)));
        if s[i].same(x) {
            c = c + 1;
        }
        i = i + 1;
    }
    assert(s@.subrange(0, s@.len() as int) =~= s@);
    c
}

fn all_counted(a: &[Kvpair], b: &[Kvpair]) -> (r: bool)
    ensures
        r == forall|i: int|
            0 <= i < a@.len() ==> count_of(pairs_model(a@), #[trigger] a@[i]@) == count_of(pairs_model(b@), a@[i]@),
{
    let mut i: usize = 0;
    while i < a.len()
        invariant
            i <= a@.len(),
            forall|k: int|
                0 <= k < i ==> count_of(pairs_model(a@), #[trigger] a@[k]@) == count_of(pairs_model(b@), a@[k]@),
        decreases a@.len() - i,
    {
        if count_pair(a, &a[i]) != count_pair(b, &a[i]) {
            return false;
        }
        i = i + 1;
    }
    true
}

fn same_pairs(a: &[Kvpair], b: &[Kvpair]) -> (r: bool)
    ensures
        r == same_pairs_unordered(pairs_model(a@), pairs_model(b@)),
{
    let ab = all_counted(a, b);
    let ba = all_counted(b, a);
    let ghost pa = pairs_model(a@);
    let ghost pb = pairs_model(b@);
    if ab && ba {
        assert forall|x: (Seq<char>, ValueModel)| #[trigger] count_of(pa, x) == count_of(pb, x) by {
            if exists|i: int| 0 <= i < a@.len() && a@[i]@ == x {
                let i = choose|i: int| 0 <= i < a@.len() && a@[i]@ == x;
                assert(count_of(pa, a@[i]@) == count_of(pb, a@[i]@));
            } else if exists|j: int| 0 <= j < b@.len() && b@[j]@ == x {
                let j = choose|j: int| 0 <= j < b@.len() && b@[j]@ == x;
                assert(count_of(pb, b@[j]@) == count_of(pa, b@[j]@));
            } else {
                assert forall|i: int| 0 <= i < pa.len() implies pa[i] != x by {
                    assert(pa[i] == a@[i]@);
                }
                assert forall|j: int| 0 <= j < pb.len() implies pb[j] != x by {
                    assert(pb[j] == b@[j]@);
                }
                lemma_count_absent(pa, x);
                lemma_count_absent(pb, x);
            }
        }
        true
    } else {
        proof {
            if !ab {
                let i = choose|i: int| 0 <= i < a@.len() && count_of(pa, #[trigger] a@[i]@) != count_of(pb, a@[i]@);
                assert(count_of(pa, a@[i]@) != count_of(pb, a@[i]@));
            } else {
                let j = choose|j: int| 0 <= j < b@.len() && count_of(pb, #[trigger] b@[j]@) != count_of(pa, b@[j]@);
                assert(count_of(pb, b@[j]@) != count_of(pa, b@[j]@));
            }
        }
        false
    }
}

/// Whether `res` is a success, with no message, carrying exactly `values`
/// in that order, and the pairs of `pairs` in any order.
pub fn assert_res_ok(res: &CommandResponse, values: &[Value], pairs: &[Kvpair]) -> (r: bool)
    ensures
        r == (res@.status == STATUS_OK && res@.message is None && res@.values == values_model(values@)
            && same_pairs_unordered(res@.pairs, pairs_model(pairs@))),
{
    res.status == STATUS_OK && res.message.is_none() && same_values(&res.values, values) && same_pairs(
        res.pairs.as_slice(),
        pairs,
    )
}

/// Whether `res` is an error with status `code` whose message contains `msg`,
/// carrying no values and no pairs.
pub fn assert_res_error(res: &CommandResponse, code: u32, msg: &str) -> (r: bool)
    ensures
        r == (res@.status == code && res@.values.len() == 0 && res@.pairs.len() == 0 && (
        res@.message matches Some(m) && contains_text(m, msg@))),
{
    if res.status != code || res.values.len() != 0 || res.pairs.len() != 0 {
        return false;
    }
    match &res.message {
        Some(m) => contains_chars(&chars_of(m.as_str()), &chars_of(msg)),
        None => false,
    }
}

/// A get of a key that storage does not hold answers with an error status,
/// no values, no pairs, and a message that names the key.
pub proof fn lemma_missing_key(table: String, key: String)
    ensures
        ({
            let r = hget_model(table, key, Ok(None));
            &&& r.status != STATUS_OK
            &&& r.values.len() == 0
            &&& r.pairs.len() == 0
            &&& r.message matches Some(m) && contains_text(m, key@)
        }),
{
    reveal_strlit("Not found for table: ");
    reveal_strlit(", key: ");
    let prefix = "Not found for table: "@ + table@ + ", key: "@;
    let m = prefix + key@;
    let i = prefix.len() as int;
    assert(m.subrange(i, i + key@.len()) =~= key@);
}

/// On a `MemTable`, a get answers from some well-formed state of the tables:
/// the value stored under the key, or, where the key is absent, the
/// not-found error that names it. It never answers with any other error.
pub proof fn lemma_mem_table_get(store: &MemTable, h: Hget, r: ResponseModel)
    requires
        <Hget as CommandService<MemTable>>::allows(h, store, r),
    ensures
        exists|s: EntriesModel|
            entries_unique(s) && match #[trigger] lookup(s, h.table@, h.key@) {
                Some(v) => r == value_response(v),
                None => r == error_response(KvError::NotFound(h.table, h.key)),
            },
{
    let got = choose|got: Result<Option<Value>, KvError>|
        #[trigger] store.get_result(h.table@, h.key@, got) && r == hget_model(h.table, h.key, got);
    let o = got->Ok_0;
    let s = choose|s: EntriesModel| entries_unique(s) && #[trigger] lookup(s, h.table@, h.key@) == option_model(o);
    assert(entries_unique(s) && lookup(s, h.table@, h.key@) == option_model(o));
}

} // verus!
