use etcd_txn_parser::operation::{DeleteData, GetData, PutData};
use etcd_txn_parser::scanner::Scanner;
use etcd_txn_parser::visitor::Visitor;

#[test]
fn test_get_data() {
    let data = b"get \"key\"";
    let mut scanner = Scanner::new(data);
    let result = GetData::accept(&mut scanner);
    assert!(matches!(result, Ok(GetData { key: b"key" })));

    let data = b"get key";
    let mut scanner = Scanner::new(data);
    let result = GetData::accept(&mut scanner);
    assert!(matches!(result, Ok(GetData { key: b"key" })));
}

#[test]
fn test_delete_data() {
    let data = b"del \"key\"";
    let mut scanner = Scanner::new(data);
    let result = DeleteData::accept(&mut scanner);
    assert!(matches!(result, Ok(DeleteData { key: b"key" })));

    let data = b"del key";
    let mut scanner = Scanner::new(data);
    let result = DeleteData::accept(&mut scanner);
    assert!(matches!(result, Ok(DeleteData { key: b"key" })));
}

#[test]
fn test_put_data() {
    let data = b"put \"key\" \"value\"";
    let mut scanner = Scanner::new(data);
    let result = PutData::accept(&mut scanner);
    assert!(matches!(
        result,
        Ok(PutData {
            key: b"key",
            value: b"value"
        })
    ));

    let data = b"put key value";
    let mut scanner = Scanner::new(data);
    let result = PutData::accept(&mut scanner);

    if let Ok(result) = &result {
        println!("{:?}", String::from_utf8_lossy(result.key));
        println!("{:?}", String::from_utf8_lossy(result.value));
    }

    assert!(matches!(
        result,
        Ok(PutData {
            key: b"key",
            value: b"value"
        })
    ));
}
