use etcd_txn_parser::compare::{Compare, CreateRevision, Lease, ModRevision, OpType, Value, Version};
use etcd_txn_parser::scanner::Scanner;
use etcd_txn_parser::visitor::Visitor;

#[test]
fn test_create_revision() {
    let data = b"create(key) = 1";
    let mut scanner = Scanner::new(data);
    let result = Compare::accept(&mut scanner);
    assert!(matches!(
        result,
        Ok(Compare::CreateRevision(CreateRevision {
            key: b"key",
            value: 1,
            op: OpType::Equal
        }))
    ));

    let data = b"create(\"key with spaces\") = 51515221";
    let mut scanner = Scanner::new(data);
    let result = Compare::accept(&mut scanner);
    assert!(matches!(
        result,
        Ok(Compare::CreateRevision(CreateRevision {
            key: b"key with spaces",
            value: 51515221,
            op: OpType::Equal
        }))
    ));

    let data = b"c(key) = 1";
    let mut scanner = Scanner::new(data);
    let result = Compare::accept(&mut scanner);
    assert!(matches!(
        result,
        Ok(Compare::CreateRevision(CreateRevision {
            key: b"key",
            value: 1,
            op: OpType::Equal
        }))
    ));

    let data = b"c(key) > 1";
    let mut scanner = Scanner::new(data);
    let result = Compare::accept(&mut scanner);
    assert!(matches!(
        result,
        Ok(Compare::CreateRevision(CreateRevision {
            key: b"key",
            value: 1,
            op: OpType::GreaterThan
        }))
    ));

    let data = b"c(key) < 1";
    let mut scanner = Scanner::new(data);
    let result = Compare::accept(&mut scanner);
    assert!(matches!(
        result,
        Ok(Compare::CreateRevision(CreateRevision {
            key: b"key",
            value: 1,
            op: OpType::LessThan
        }))
    ));
}

#[test]
fn test_mod_revision() {
    let data = b"mod(key) = 1";
    let mut scanner = Scanner::new(data);
    let result = Compare::accept(&mut scanner);
    assert!(matches!(
        result,
        Ok(Compare::ModRevision(ModRevision {
            key: b"key",
            value: 1,
            op: OpType::Equal
        }))
    ));

    let data = b"mod(\"key with spaces\") = 51515221";
    let mut scanner = Scanner::new(data);
    let result = Compare::accept(&mut scanner);
    assert!(matches!(
        result,
        Ok(Compare::ModRevision(ModRevision {
            key: b"key with spaces",
            value: 51515221,
            op: OpType::Equal
        }))
    ));

    let data = b"m(key) = 1";
    let mut scanner = Scanner::new(data);
    let result = Compare::accept(&mut scanner);
    assert!(matches!(
        result,
        Ok(Compare::ModRevision(ModRevision {
            key: b"key",
            value: 1,
            op: OpType::Equal
        }))
    ));

    let data = b"m(key) > 1";
    let mut scanner = Scanner::new(data);
    let result = Compare::accept(&mut scanner);
    assert!(matches!(
        result,
        Ok(Compare::ModRevision(ModRevision {
            key: b"key",
            value: 1,
            op: OpType::GreaterThan
        }))
    ));

    let data = b"m(key) < 1";
    let mut scanner = Scanner::new(data);
    let result = Compare::accept(&mut scanner);
    assert!(matches!(
        result,
        Ok(Compare::ModRevision(ModRevision {
            key: b"key",
            value: 1,
            op: OpType::LessThan
        }))
    ));
}

#[test]
fn test_value() {
    let data = b"value(key) = data";
    let mut scanner = Scanner::new(data);
    let result = Compare::accept(&mut scanner);
    assert!(matches!(
        result,
        Ok(Compare::Value(Value {
            key: b"key",
            value: b"data",
            op: OpType::Equal
        }))
    ));

    let data = b"value(\"key with spaces\") = data";
    let mut scanner = Scanner::new(data);
    let result = Compare::accept(&mut scanner);
    assert!(matches!(
        result,
        Ok(Compare::Value(Value {
            key: b"key with spaces",
            value: b"data",
            op: OpType::Equal
        }))
    ));

    let data = b"val(key) = data";
    let mut scanner = Scanner::new(data);
    let result = Compare::accept(&mut scanner);
    assert!(matches!(
        result,
        Ok(Compare::Value(Value {
            key: b"key",
            value: b"data",
            op: OpType::Equal
        }))
    ));

    let data = b"val(key) > data";
    let mut scanner = Scanner::new(data);
    let result = Compare::accept(&mut scanner);
    assert!(matches!(
        result,
        Ok(Compare::Value(Value {
            key: b"key",
            value: b"data",
            op: OpType::GreaterThan
        }))
    ));

    let data = b"val(key) < data";
    let mut scanner = Scanner::new(data);
    let result = Compare::accept(&mut scanner);
    assert!(matches!(
        result,
        Ok(Compare::Value(Value {
            key: b"key",
            value: b"data",
            op: OpType::LessThan
        }))
    ));
}

#[test]
fn test_version() {
    let data = b"version(key) = 1";
    let mut scanner = Scanner::new(data);
    let result = Compare::accept(&mut scanner);
    assert!(matches!(
        result,
        Ok(Compare::Version(Version {
            key: b"key",
            value: 1,
            op: OpType::Equal
        }))
    ));

    let data = b"version(\"key with spaces\") = 51515221";
    let mut scanner = Scanner::new(data);
    let result = Compare::accept(&mut scanner);
    assert!(matches!(
        result,
        Ok(Compare::Version(Version {
            key: b"key with spaces",
            value: 51515221,
            op: OpType::Equal
        }))
    ));

    let data = b"ver(key) = 1";
    let mut scanner = Scanner::new(data);
    let result = Compare::accept(&mut scanner);
    assert!(matches!(
        result,
        Ok(Compare::Version(Version {
            key: b"key",
            value: 1,
            op: OpType::Equal
        }))
    ));

    let data = b"ver(key) > 1";
    let mut scanner = Scanner::new(data);
    let result = Compare::accept(&mut scanner);
    assert!(matches!(
        result,
        Ok(Compare::Version(Version {
            key: b"key",
            value: 1,
            op: OpType::GreaterThan
        }))
    ));

    let data = b"ver(key) < 1";
    let mut scanner = Scanner::new(data);
    let result = Compare::accept(&mut scanner);
    assert!(matches!(
        result,
        Ok(Compare::Version(Version {
            key: b"key",
            value: 1,
            op: OpType::LessThan
        }))
    ));
}

#[test]
fn test_lease() {
    let data = b"lease(key) = 1";
    let mut scanner = Scanner::new(data);
    let result = Compare::accept(&mut scanner);
    assert!(matches!(
        result,
        Ok(Compare::Lease(Lease {
            key: b"key",
            value: 1,
            op: OpType::Equal
        }))
    ));

    let data = b"lease(\"key with spaces\") = 51515221";
    let mut scanner = Scanner::new(data);
    let result = Compare::accept(&mut scanner);
    assert!(matches!(
        result,
        Ok(Compare::Lease(Lease {
            key: b"key with spaces",
            value: 51515221,
            op: OpType::Equal
        }))
    ));

    let data = b"lease(key) > 1";
    let mut scanner = Scanner::new(data);
    let result = Compare::accept(&mut scanner);
    assert!(matches!(
        result,
        Ok(Compare::Lease(Lease {
            key: b"key",
            value: 1,
            op: OpType::GreaterThan
        }))
    ));

    let data = b"lease(key) < 1";
    let mut scanner = Scanner::new(data);
    let result = Compare::accept(&mut scanner);
    assert!(matches!(
        result,
        Ok(Compare::Lease(Lease {
            key: b"key",
            value: 1,
            op: OpType::LessThan
        }))
    ));
}
