use kv::service::{hget_response, hset_response};
use kv::{
    assert_res_error, assert_res_ok, dispatch, CommandRequest, CommandResponse, Hdel, Kvpair, KvError,
    MemTable, NoHook, Notify, NotifyMut, RequestData, Service, ServiceInner, Storage, Tables, Value,
};

fn v(s: &str) -> Value {
    Value::String(s.to_string())
}

#[test]
fn service_should_works() {
    let service: Service = Service::from(ServiceInner::new(MemTable::new()));
    let cloned = service.clone();
    let res = cloned.execute(CommandRequest::new_hset("t1", "k1", v("v1")));
    assert!(assert_res_ok(&res, &[Value::Empty], &[]));
    let res = service.execute(CommandRequest::new_hget("t1", "k1"));
    assert!(assert_res_ok(&res, &[v("v1")], &[]));
    assert_eq!(res.status, 200);
    assert_eq!(res.message, None);
}

#[test]
fn get_missing_key_is_not_found() {
    let service: Service = Service::from(ServiceInner::new(MemTable::new()));
    let res = service.execute(CommandRequest::new_hget("t1", "missing"));
    assert!(assert_res_error(&res, 404, "missing"));
    assert!(res.values.is_empty());
    assert!(res.pairs.is_empty());
    assert_eq!(res.message.as_deref(), Some("Not found for table: t1, key: missing"));
}

#[test]
fn set_returns_previous_value() {
    let store = MemTable::new();
    let res = dispatch(CommandRequest::new_hset("t", "k", Value::Integer(1)), &store);
    assert!(assert_res_ok(&res, &[Value::Empty], &[]));
    let res = dispatch(CommandRequest::new_hset("t", "k", Value::Integer(2)), &store);
    assert!(assert_res_ok(&res, &[Value::Integer(1)], &[]));
    let res = dispatch(CommandRequest::new_hget("t", "k"), &store);
    assert!(assert_res_ok(&res, &[Value::Integer(2)], &[]));
}

#[test]
fn get_all_returns_pairs_of_one_table() {
    let store = MemTable::new();
    dispatch(CommandRequest::new_hset("t", "a", v("1")), &store);
    dispatch(CommandRequest::new_hset("other", "x", v("9")), &store);
    dispatch(CommandRequest::new_hset("t", "b", Value::Bool(true)), &store);
    let expected = [Kvpair::new("a", v("1")), Kvpair::new("b", Value::Bool(true))];
    let first = dispatch(CommandRequest::new_hgetall("t"), &store);
    assert!(assert_res_ok(&first, &[], &expected));
    let second = dispatch(CommandRequest::new_hgetall("t"), &store);
    assert_eq!(first, second);
    let empty = dispatch(CommandRequest::new_hgetall("none"), &store);
    assert!(assert_res_ok(&empty, &[], &[]));
}

#[test]
fn request_without_data_is_invalid() {
    let store = MemTable::new();
    let res = dispatch(CommandRequest { request_data: None }, &store);
    assert!(assert_res_error(&res, 400, "Request has no data"));
}

#[test]
fn unhandled_request_is_not_implemented() {
    let store = MemTable::new();
    let res = dispatch(CommandRequest::new_hdel("t", "k"), &store);
    assert!(assert_res_error(&res, 500, "Not implemented"));
    let cmd = CommandRequest {
        request_data: Some(RequestData::Hdel(Hdel { table: "t".into(), key: "k".into() })),
    };
    assert_eq!(cmd, CommandRequest::new_hdel("t", "k"));
}

#[test]
fn handlers_map_storage_outcomes() {
    let r = hget_response("t".into(), "k".into(), Err(KvError::Internal("disk".into())));
    assert!(assert_res_error(&r, 500, "Internal error: disk"));
    let r = hset_response(Ok(None));
    assert!(assert_res_ok(&r, &[Value::Empty], &[]));
    let r = hset_response(Err(KvError::InvalidCommand("bad".into())));
    assert!(assert_res_error(&r, 400, "bad"));
}

#[test]
fn response_checks_reject_mismatches() {
    let r = CommandResponse::from_value(v("x"));
    assert!(!assert_res_ok(&r, &[v("y")], &[]));
    assert!(!assert_res_error(&r, 200, "x"));
    let e = CommandResponse::from_error(KvError::FrameTooLarge);
    assert!(!assert_res_error(&e, 500, "missing"));
    assert!(assert_res_error(&e, 500, "too large"));
}

#[test]
fn tables_set_then_get() {
    let mut t = Tables::new();
    assert_eq!(t.set("t1", "k1".to_string(), v("v1")), None);
    assert_eq!(t.get("t1", "k1"), Some(v("v1")));
    assert_eq!(t.get("t2", "k1"), None);
    assert_eq!(t.set("t1", "k1".to_string(), v("v2")), Some(v("v1")));
    assert_eq!(t.get("t1", "k1"), Some(v("v2")));
    assert_eq!(t.get_all("t1"), t.get_all("t1"));
    assert_eq!(t.get_all("t1").len(), 1);
}

#[test]
fn storage_trait_on_mem_table() {
    let store = MemTable::new();
    assert_eq!(store.set("t", "k".to_string(), Value::Float(2.5f64.to_bits())), Ok(None));
    assert_eq!(store.get("t", "k"), Ok(Some(Value::Float(2.5f64.to_bits()))));
    assert_eq!(store.get_all("t"), Ok(vec![Kvpair::new("k", Value::Float(2.5f64.to_bits()))]));
}

struct Append(&'static str);

impl NotifyMut<CommandResponse> for Append {
    fn notified(&self, mut res: CommandResponse) -> CommandResponse {
        self.notify(&mut res);
        res
    }

    fn notify(&self, res: &mut CommandResponse) {
        let mut m = res.message.take().unwrap_or_default();
        m.push_str(self.0);
        res.message = Some(m);
    }
}

#[test]
fn before_send_hooks_run_in_order() {
    let inner: ServiceInner<MemTable, NoHook, NoHook, Append> =
        ServiceInner::new(MemTable::new()).fn_before_send(Append("A")).fn_before_send(Append("B"));
    let service = Service::from(inner);
    let res = service.execute(CommandRequest::new_hget("t", "k"));
    assert_eq!(res.message.as_deref(), Some("Not found for table: t, key: kAB"));
    service.after_send();
}

struct Quiet;

impl Notify<CommandRequest> for Quiet {
    fn notify(&self, _req: &CommandRequest) {}
}

#[test]
fn received_hooks_do_not_change_results() {
    let inner: ServiceInner<MemTable, Quiet> = ServiceInner::new(MemTable::new()).fn_received(Quiet);
    let service = Service::from(inner);
    let res = service.execute(CommandRequest::new_hset("t", "k", v("v")));
    assert!(assert_res_ok(&res, &[Value::Empty], &[]));
}

#[test]
fn response_pairs_compare_in_any_order() {
    let store = MemTable::new();
    dispatch(CommandRequest::new_hset("t", "a", v("1")), &store);
    dispatch(CommandRequest::new_hset("t", "b", v("2")), &store);
    let res = dispatch(CommandRequest::new_hgetall("t"), &store);
    assert!(assert_res_ok(&res, &[], &[Kvpair::new("b", v("2")), Kvpair::new("a", v("1"))]));
    assert!(!assert_res_ok(&res, &[], &[Kvpair::new("a", v("1")), Kvpair::new("a", v("1"))]));
    assert!(!assert_res_ok(&res, &[], &[Kvpair::new("a", v("1"))]));
}
