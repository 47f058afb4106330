use redis_lite::commands::{Command, CommandType};
use redis_lite::handler::{extract_command, unpack_bulk_str, FrameError};
use redis_lite::redis::{Redis, Reply};
use redis_lite::resp::Value;

fn bulk(s: &str) -> Value {
    Value::BulkString(s.to_string())
}

fn run(r: &mut Redis, name: &str, args: &[&str], now: u64) -> Reply {
    let cmd = Command::new(name, args.iter().map(|a| bulk(a)).collect());
    r.execute_command(cmd, now)
}

fn ready(v: Value) -> Reply {
    Reply::Ready(v)
}

fn items(xs: &[&str]) -> Reply {
    Reply::Ready(Value::Array(xs.iter().map(|x| bulk(x)).collect()))
}

fn is_error(r: &Reply) -> bool {
    matches!(r, Reply::Ready(Value::Error(_)))
}

#[test]
fn ping_answers_pong() {
    let mut r = Redis::new();
    assert_eq!(run(&mut r, "PING", &[], 0), ready(Value::SimpleString("PONG".to_string())));
}

#[test]
fn echo_returns_argument() {
    let mut r = Redis::new();
    assert_eq!(run(&mut r, "ECHO", &["hey"], 0), ready(bulk("hey")));
    assert!(is_error(&run(&mut r, "ECHO", &[], 0)));
    let cmd = Command::new("ECHO", vec![Value::IntegerString(7)]);
    assert_eq!(r.execute_command(cmd, 0), ready(Value::IntegerString(7)));
    let cmd = Command::new("ECHO", vec![Value::SimpleString("s".to_string())]);
    assert_eq!(r.execute_command(cmd, 0), ready(Value::SimpleString("s".to_string())));
}

#[test]
fn unknown_command_is_an_error() {
    let mut r = Redis::new();
    assert_eq!(run(&mut r, "FLUSHALL", &[], 0), ready(Value::Error("ERR unknown command".to_string())));
    assert!(is_error(&run(&mut r, "ping", &["a", "b", "c"], 0)));
}

#[test]
fn set_ex_then_get_until_expiry() {
    let mut r = Redis::new();
    assert_eq!(run(&mut r, "SET", &["k", "v", "EX", "1"], 1000), ready(Value::SimpleString("OK".to_string())));
    assert_eq!(run(&mut r, "GET", &["k"], 1000), ready(bulk("v")));
    assert_eq!(run(&mut r, "GET", &["k"], 1999), ready(bulk("v")));
    assert_eq!(run(&mut r, "GET", &["k"], 2000), ready(Value::NullBulkString));
    assert_eq!(run(&mut r, "GET", &["k"], 1500), ready(Value::NullBulkString));
}

#[test]
fn set_px_in_lower_case() {
    let mut r = Redis::new();
    run(&mut r, "SET", &["k", "v", "px", "100"], 50);
    assert_eq!(run(&mut r, "GET", &["k"], 149), ready(bulk("v")));
    assert_eq!(run(&mut r, "GET", &["k"], 150), ready(Value::NullBulkString));
}

#[test]
fn set_without_expiry_overwrites_expiry() {
    let mut r = Redis::new();
    run(&mut r, "SET", &["k", "v", "EX", "1"], 0);
    run(&mut r, "SET", &["k", "w"], 0);
    assert_eq!(run(&mut r, "GET", &["k"], 5_000_000), ready(bulk("w")));
}

#[test]
fn malformed_expiry_is_refused() {
    let mut r = Redis::new();
    assert!(is_error(&run(&mut r, "SET", &["k", "v", "EX", "soon"], 0)));
    assert!(is_error(&run(&mut r, "SET", &["k", "v", "XX", "10"], 0)));
    assert!(is_error(&run(&mut r, "SET", &["k", "v", "EX"], 0)));
    assert_eq!(run(&mut r, "GET", &["k"], 0), ready(Value::NullBulkString));
}

#[test]
fn zero_expiry_expires_at_once() {
    let mut r = Redis::new();
    run(&mut r, "SET", &["k", "old"], 0);
    assert_eq!(run(&mut r, "SET", &["k", "v", "EX", "0"], 10), ready(Value::SimpleString("OK".to_string())));
    assert_eq!(run(&mut r, "GET", &["k"], 10), ready(Value::NullBulkString));
    assert_eq!(run(&mut r, "SET", &["j", "v", "PX", "0"], 10), ready(Value::SimpleString("OK".to_string())));
    assert_eq!(run(&mut r, "GET", &["j"], 10), ready(Value::NullBulkString));
}

#[test]
fn get_of_absent_key_is_null() {
    let mut r = Redis::new();
    assert_eq!(run(&mut r, "GET", &["nothing"], 0), ready(Value::NullBulkString));
    assert!(is_error(&run(&mut r, "GET", &[], 0)));
}

#[test]
fn pushes_then_whole_range() {
    let mut r = Redis::new();
    assert_eq!(run(&mut r, "RPUSH", &["k", "a", "b"], 0), ready(Value::IntegerString(2)));
    assert_eq!(run(&mut r, "LPUSH", &["k", "x", "y"], 0), ready(Value::IntegerString(4)));
    assert_eq!(run(&mut r, "RPUSH", &["k", "c"], 0), ready(Value::IntegerString(5)));
    assert_eq!(run(&mut r, "LRANGE", &["k", "0", "-1"], 0), items(&["y", "x", "a", "b", "c"]));
    assert_eq!(run(&mut r, "LLEN", &["k"], 0), ready(Value::IntegerString(5)));
}

#[test]
fn lpush_puts_last_argument_at_head() {
    let mut r = Redis::new();
    run(&mut r, "LPUSH", &["k", "a", "b", "c"], 0);
    assert_eq!(run(&mut r, "LRANGE", &["k", "0", "-1"], 0), items(&["c", "b", "a"]));
}

#[test]
fn lpop_with_count_and_on_absent_key() {
    let mut r = Redis::new();
    run(&mut r, "RPUSH", &["k", "a", "b", "c"], 0);
    assert_eq!(run(&mut r, "LPOP", &["k", "2"], 0), items(&["a", "b"]));
    assert_eq!(run(&mut r, "LRANGE", &["k", "0", "-1"], 0), items(&["c"]));
    assert_eq!(run(&mut r, "LPOP", &["k"], 0), ready(bulk("c")));
    assert_eq!(run(&mut r, "LPOP", &["k"], 0), ready(Value::NullBulkString));
    assert_eq!(run(&mut r, "LPOP", &["absent"], 0), ready(Value::NullBulkString));
    assert_eq!(run(&mut r, "LPOP", &["absent", "3"], 0), items(&[]));
    assert_eq!(run(&mut r, "LLEN", &["k"], 0), ready(Value::IntegerString(0)));
}

#[test]
fn lpop_count_larger_than_list() {
    let mut r = Redis::new();
    run(&mut r, "RPUSH", &["k", "a", "b"], 0);
    assert_eq!(run(&mut r, "LPOP", &["k", "10"], 0), items(&["a", "b"]));
    assert!(is_error(&run(&mut r, "LPOP", &["k", "-1"], 0)));
}

#[test]
fn lrange_negative_and_past_end() {
    let mut r = Redis::new();
    run(&mut r, "RPUSH", &["k", "a", "b", "c", "d", "e"], 0);
    assert_eq!(run(&mut r, "LRANGE", &["k", "-3", "-1"], 0), items(&["c", "d", "e"]));
    assert_eq!(run(&mut r, "LRANGE", &["k", "5", "10"], 0), items(&[]));
    assert_eq!(run(&mut r, "LRANGE", &["k", "1", "2"], 0), items(&["b", "c"]));
    assert_eq!(run(&mut r, "LRANGE", &["k", "-100", "100"], 0), items(&["a", "b", "c", "d", "e"]));
    assert_eq!(run(&mut r, "LRANGE", &["k", "3", "1"], 0), items(&[]));
    assert_eq!(run(&mut r, "LRANGE", &["nothing", "0", "-1"], 0), items(&[]));
    assert!(is_error(&run(&mut r, "LRANGE", &["k", "one", "2"], 0)));
}

#[test]
fn type_mismatch_is_an_error() {
    let mut r = Redis::new();
    run(&mut r, "SET", &["s", "v"], 0);
    run(&mut r, "RPUSH", &["l", "a"], 0);
    assert!(is_error(&run(&mut r, "RPUSH", &["s", "a"], 0)));
    assert!(is_error(&run(&mut r, "LLEN", &["s"], 0)));
    assert!(is_error(&run(&mut r, "GET", &["l"], 0)));
    assert_eq!(run(&mut r, "GET", &["s"], 0), ready(bulk("v")));
    assert_eq!(run(&mut r, "SET", &["l", "x"], 0), ready(Value::SimpleString("OK".to_string())));
    assert_eq!(run(&mut r, "GET", &["l"], 0), ready(bulk("x")));
}

#[test]
fn push_on_expired_scalar_makes_a_list() {
    let mut r = Redis::new();
    run(&mut r, "SET", &["k", "v", "PX", "10"], 0);
    assert_eq!(run(&mut r, "RPUSH", &["k", "a"], 10), ready(Value::IntegerString(1)));
    assert_eq!(run(&mut r, "LRANGE", &["k", "0", "-1"], 10), items(&["a"]));
}

#[test]
fn blpop_serves_first_registered_waiter() {
    let mut r = Redis::new();
    let first = run(&mut r, "BLPOP", &["k", "0"], 0);
    let second = run(&mut r, "BLPOP", &["k", "0"], 0);
    let (id1, id2) = match (first, second) {
        (Reply::Blocked { id: a, timeout_ms: None }, Reply::Blocked { id: b, timeout_ms: None }) => (a, b),
        other => panic!("expected two blocked pops, got {:?}", other),
    };
    assert_eq!(run(&mut r, "RPUSH", &["k", "v"], 0), ready(Value::IntegerString(1)));
    assert_eq!(r.take_delivery(id2), None);
    assert_eq!(r.take_delivery(id1), Some(("k".to_string(), "v".to_string())));
    assert_eq!(r.take_delivery(id1), None);
    assert_eq!(run(&mut r, "LLEN", &["k"], 0), ready(Value::IntegerString(0)));
    assert_eq!(run(&mut r, "RPUSH", &["k", "w"], 0), ready(Value::IntegerString(1)));
    assert_eq!(r.take_delivery(id2), Some(("k".to_string(), "w".to_string())));
}

#[test]
fn push_skips_waiters_on_other_keys() {
    let mut r = Redis::new();
    let other = match run(&mut r, "BLPOP", &["elsewhere", "0"], 0) {
        Reply::Blocked { id, .. } => id,
        x => panic!("expected a blocked pop, got {:?}", x),
    };
    let mine = match run(&mut r, "BLPOP", &["elsewhere", "k", "0"], 0) {
        Reply::Blocked { id, .. } => id,
        x => panic!("expected a blocked pop, got {:?}", x),
    };
    assert_eq!(run(&mut r, "RPUSH", &["k", "a", "b"], 0), ready(Value::IntegerString(2)));
    assert_eq!(r.take_delivery(mine), Some(("k".to_string(), "a".to_string())));
    assert_eq!(r.take_delivery(other), None);
    assert_eq!(run(&mut r, "LRANGE", &["k", "0", "-1"], 0), items(&["b"]));
    assert_eq!(run(&mut r, "RPUSH", &["elsewhere", "z"], 0), ready(Value::IntegerString(1)));
    assert_eq!(r.take_delivery(other), Some(("elsewhere".to_string(), "z".to_string())));
}

#[test]
fn blpop_returns_at_once_from_ready_key() {
    let mut r = Redis::new();
    run(&mut r, "RPUSH", &["k2", "h", "t"], 0);
    assert_eq!(run(&mut r, "BLPOP", &["k1", "k2", "5"], 0), items(&["k2", "h"]));
    assert_eq!(run(&mut r, "LRANGE", &["k2", "0", "-1"], 0), items(&["t"]));
}

#[test]
fn blpop_timeout_and_cancel() {
    let mut r = Redis::new();
    let id = match run(&mut r, "BLPOP", &["k", "2"], 0) {
        Reply::Blocked { id, timeout_ms } => {
            assert_eq!(timeout_ms, Some(2000));
            id
        }
        other => panic!("expected a blocked pop, got {:?}", other),
    };
    assert_eq!(r.cancel_wait(id), None);
    assert_eq!(run(&mut r, "RPUSH", &["k", "v"], 0), ready(Value::IntegerString(1)));
    assert_eq!(r.take_delivery(id), None);
    assert_eq!(run(&mut r, "LRANGE", &["k", "0", "-1"], 0), items(&["v"]));
}

#[test]
fn blpop_fractional_timeout() {
    let mut r = Redis::new();
    assert!(matches!(
        run(&mut r, "BLPOP", &["k", "0.5"], 0),
        Reply::Blocked { timeout_ms: Some(500), .. }
    ));
    assert!(matches!(
        run(&mut r, "BLPOP", &["k", "1.25"], 0),
        Reply::Blocked { timeout_ms: Some(1250), .. }
    ));
}

#[test]
fn cancel_after_delivery_collects_it() {
    let mut r = Redis::new();
    let id = match run(&mut r, "BLPOP", &["a", "b", "0"], 0) {
        Reply::Blocked { id, .. } => id,
        other => panic!("expected a blocked pop, got {:?}", other),
    };
    run(&mut r, "LPUSH", &["b", "x", "y"], 0);
    assert_eq!(r.cancel_wait(id), Some(("b".to_string(), "y".to_string())));
    assert_eq!(run(&mut r, "LRANGE", &["b", "0", "-1"], 0), items(&["x"]));
}

#[test]
fn blpop_argument_errors() {
    let mut r = Redis::new();
    assert!(is_error(&run(&mut r, "BLPOP", &["k"], 0)));
    assert!(is_error(&run(&mut r, "BLPOP", &["k", "soon"], 0)));
    assert!(is_error(&run(&mut r, "BLPOP", &["k", "1.2345"], 0)));
    assert!(is_error(&run(&mut r, "BLPOP", &["k", "1."], 0)));
    assert!(is_error(&run(&mut r, "BLPOP", &["k", "-1"], 0)));
}

#[test]
fn many_keys_read_back_their_own_values() {
    let mut r = Redis::new();
    for i in 0..200 {
        let k = format!("key{}", i);
        let v = format!("value{}", i);
        run(&mut r, "SET", &[&k, &v], 0);
    }
    for i in 0..200 {
        let k = format!("key{}", i);
        assert_eq!(run(&mut r, "GET", &[&k], 1), ready(bulk(&format!("value{}", i))));
    }
}

#[test]
fn command_names() {
    assert_eq!(CommandType::from("PING"), CommandType::Ping);
    assert_eq!(CommandType::from("SET"), CommandType::SetKey);
    assert_eq!(CommandType::from("BLPOP"), CommandType::BLpop);
    assert_eq!(CommandType::from("LRANGE"), CommandType::Lrange);
    assert_eq!(CommandType::from("blpop"), CommandType::Unknown);
    assert_eq!(CommandType::from(""), CommandType::Unknown);
}

#[test]
fn extract_command_splits_name_and_args() {
    let v = Value::Array(vec![bulk("ECHO"), bulk("hi")]);
    let (name, args) = extract_command(v).unwrap();
    assert_eq!(name, "ECHO");
    assert_eq!(args, vec![bulk("hi")]);
    assert_eq!(extract_command(Value::Array(vec![])).unwrap_err(), FrameError::EmptyCommand);
    assert_eq!(extract_command(bulk("PING")).unwrap_err(), FrameError::NotAnArray);
    assert_eq!(
        extract_command(Value::Array(vec![Value::IntegerString(3)])).unwrap_err(),
        FrameError::NameNotBulk
    );
    assert_eq!(unpack_bulk_str(bulk("x")).unwrap(), "x");
    assert_eq!(unpack_bulk_str(Value::NullBulkString).unwrap_err(), FrameError::NameNotBulk);
}
