use etcd_txn_parser::compare::{Compare, CreateRevision, Lease, ModRevision, OpType, Value, Version};
use etcd_txn_parser::errors::ParseError;
use etcd_txn_parser::operation::{DeleteData, GetData, Operation, PutData};
use etcd_txn_parser::scanner::Scanner;
use etcd_txn_parser::visitor::Visitor;

fn compare(input: &[u8]) -> (Result<Compare<'_>, ParseError>, usize) {
    let mut scanner = Scanner::new(input);
    let result = Compare::accept(&mut scanner);
    (result, scanner.current_position())
}

fn operation(input: &[u8]) -> (Result<Operation<'_>, ParseError>, usize) {
    let mut scanner = Scanner::new(input);
    let result = Operation::accept(&mut scanner);
    (result, scanner.current_position())
}

#[test]
fn value_compare_in_a_line() {
    assert_eq!(
        compare(b"value(key) = data"),
        (
            Ok(Compare::Value(Value {
                key: b"key",
                value: b"data",
                op: OpType::Equal
            })),
            17
        )
    );
}

#[test]
fn short_and_long_keywords_read_the_same() {
    let pairs: [(&[u8], &[u8]); 4] = [
        (b"c(\"a key\") > 42", b"create(\"a key\") > 42"),
        (b"m(key)<7", b"mod(key)<7"),
        (b"val(key) = some data", b"value(key) = some data"),
        (b"ver(key) = 3", b"version(key) = 3"),
    ];
    for (short, long) in pairs {
        let (short_result, short_end) = compare(short);
        let (long_result, long_end) = compare(long);
        assert!(short_result.is_ok());
        assert_eq!(short_result, long_result);
        assert_eq!(short_end, short.len());
        assert_eq!(long_end, long.len());
    }
    assert_eq!(
        compare(b"c(\"a key\") > 42").0,
        Ok(Compare::CreateRevision(CreateRevision {
            key: b"a key",
            value: 42,
            op: OpType::GreaterThan
        }))
    );
    assert_eq!(
        compare(b"mod(key)<7").0,
        Ok(Compare::ModRevision(ModRevision {
            key: b"key",
            value: 7,
            op: OpType::LessThan
        }))
    );
    assert_eq!(
        compare(b"version(key) = 3").0,
        Ok(Compare::Version(Version {
            key: b"key",
            value: 3,
            op: OpType::Equal
        }))
    );
}

#[test]
fn short_and_long_keywords_fail_the_same() {
    let pairs: [(&[u8], &[u8]); 4] = [
        (b"c(key) > x", b"create(key) > x"),
        (b"m(key", b"mod(key"),
        (b"val() = data", b"value() = data"),
        (b"ver(key) 3", b"version(key) 3"),
    ];
    for (short, long) in pairs {
        assert_eq!(compare(short), (Err(ParseError::UnexpectedToken), 0));
        assert_eq!(compare(long), (Err(ParseError::UnexpectedToken), 0));
    }
}

#[test]
fn malformed_keyword_fails() {
    assert_eq!(compare(b"creat(key) = 1"), (Err(ParseError::UnexpectedToken), 0));
}

#[test]
fn keywords_are_exact() {
    for input in [
        &b"creat(key) = 1"[..],
        b"created(key) = 1",
        b"C(key) = 1",
        b"Create(key) = 1",
        b"cr(key) = 1",
        b"mo(key) = 1",
        b"modify(key) = 1",
        b"v(key) = 1",
        b"va(key) = 1",
        b"valu(key) = 1",
        b"values(key) = 1",
        b"vers(key) = 1",
        b"l(key) = 1",
        b"leases(key) = 1",
        b"LEASE(key) = 1",
        b"(key) = 1",
        b"key = 1",
        b"",
    ] {
        assert_eq!(compare(input), (Err(ParseError::UnexpectedToken), 0));
    }
}

#[test]
fn keyword_touches_its_parenthesis() {
    for input in [
        &b"c (key) = 1"[..],
        b"create (key) = 1",
        b"mod\t(key) = 1",
        b"lease (key) = 1",
        b"val\n(key) = 1",
        b"c key = 1",
        b"c\"key\" = 1",
    ] {
        assert_eq!(compare(input), (Err(ParseError::UnexpectedToken), 0));
    }
}

#[test]
fn blanks_around_the_operator_are_optional() {
    let cases: [(&[u8], usize); 4] = [
        (b"lease(key)<12", 13),
        (b"lease(key) <12", 14),
        (b"lease(key)< 12", 14),
        (b"  \tlease(key) \t < \t\t12", 22),
    ];
    for (input, end) in cases {
        let expected = Ok(Compare::Lease(Lease {
            key: b"key",
            value: 12,
            op: OpType::LessThan,
        }));
        assert_eq!(compare(input), (expected, end));
    }
}

#[test]
fn compare_stops_behind_its_number() {
    let inputs: [&[u8]; 3] = [
        b"mod(\"key1\") > 0\nmod(key2) > 1",
        b"mod(\"key1\") > 0 ",
        b"mod(\"key1\") > 0abc",
    ];
    for input in inputs {
        let expected = Ok(Compare::ModRevision(ModRevision {
            key: b"key1",
            value: 0,
            op: OpType::GreaterThan,
        }));
        assert_eq!(compare(input), (expected, 15));
    }
}

#[test]
fn compare_needs_all_its_parts() {
    for input in [
        &b"c(key) = "[..],
        b"c(key) =",
        b"c(key) 1",
        b"c(key)",
        b"c(key",
        b"c() = 1",
        b"c(key) = x",
        b"c(key) = -1",
        b"c(key) ! 1",
        b"c(key) == 1",
        b"c(key) >= 1",
        b"c(key)\n= 1",
        b"c(key) =\n1",
        b"c(key) = 18446744073709551616",
        b"lease(key) = \"1\"",
    ] {
        assert_eq!(compare(input), (Err(ParseError::UnexpectedToken), 0));
    }
}

#[test]
fn compare_takes_the_largest_number() {
    assert_eq!(
        compare(b"ver(key) = 18446744073709551615"),
        (
            Ok(Compare::Version(Version {
                key: b"key",
                value: u64::MAX,
                op: OpType::Equal
            })),
            31
        )
    );
}

#[test]
fn value_is_the_rest_of_the_line() {
    assert_eq!(
        compare(b"val(key) = some \"raw\" data \t\nc(key) = 1"),
        (
            Ok(Compare::Value(Value {
                key: b"key",
                value: b"some \"raw\" data \t",
                op: OpType::Equal
            })),
            28
        )
    );
    assert_eq!(
        compare(b"value(key) >"),
        (
            Ok(Compare::Value(Value {
                key: b"key",
                value: b"",
                op: OpType::GreaterThan
            })),
            12
        )
    );
    assert_eq!(
        compare(b"value(key) <   \nnext"),
        (
            Ok(Compare::Value(Value {
                key: b"key",
                value: b"",
                op: OpType::LessThan
            })),
            15
        )
    );
    assert_eq!(
        compare(b"val(key) = 12"),
        (
            Ok(Compare::Value(Value {
                key: b"key",
                value: b"12",
                op: OpType::Equal
            })),
            13
        )
    );
}

#[test]
fn each_variant_reads_its_own_keyword_only() {
    let mut scanner = Scanner::new(b"mod(key) = 1");
    assert_eq!(CreateRevision::accept(&mut scanner), Err(ParseError::UnexpectedToken));
    assert_eq!(Value::accept(&mut scanner), Err(ParseError::UnexpectedToken));
    assert_eq!(Version::accept(&mut scanner), Err(ParseError::UnexpectedToken));
    assert_eq!(Lease::accept(&mut scanner), Err(ParseError::UnexpectedToken));
    assert_eq!(scanner.current_position(), 0);
    assert_eq!(
        ModRevision::accept(&mut scanner),
        Ok(ModRevision {
            key: b"key",
            value: 1,
            op: OpType::Equal
        })
    );
    assert!(scanner.is_empty());

    let mut scanner = Scanner::new(b"ver(key) = 1");
    assert_eq!(Value::accept(&mut scanner), Err(ParseError::UnexpectedToken));
    let mut scanner = Scanner::new(b"val(key) = 1");
    assert_eq!(Version::accept(&mut scanner), Err(ParseError::UnexpectedToken));
    let mut scanner = Scanner::new(b"c(key) = 1");
    assert_eq!(ModRevision::accept(&mut scanner), Err(ParseError::UnexpectedToken));
    assert_eq!(
        CreateRevision::accept(&mut scanner),
        Ok(CreateRevision {
            key: b"key",
            value: 1,
            op: OpType::Equal
        })
    );
}

#[test]
fn put_takes_a_key_and_a_value() {
    assert_eq!(
        operation(b"put key2 \"some extra key\""),
        (
            Ok(Operation::Put(PutData {
                key: b"key2",
                value: b"some extra key"
            })),
            25
        )
    );
    assert_eq!(
        operation(b" \tput\t\"a key\"value  \nget key"),
        (
            Ok(Operation::Put(PutData {
                key: b"a key",
                value: b"value"
            })),
            20
        )
    );
    assert_eq!(
        operation(b"put\"k\"\"v\""),
        (
            Ok(Operation::Put(PutData {
                key: b"k",
                value: b"v"
            })),
            9
        )
    );
    assert_eq!(
        operation(b"put get del"),
        (
            Ok(Operation::Put(PutData {
                key: b"get",
                value: b"del"
            })),
            11
        )
    );
}

#[test]
fn put_needs_both_literals() {
    for input in [
        &b"put"[..],
        b"put ",
        b"put key",
        b"put key ",
        b"put key\nvalue",
        b"put\nkey value",
        b"put key \"value",
        b"put \"key value",
        b"putkey value",
        b"Put key value",
    ] {
        assert_eq!(operation(input), (Err(ParseError::UnexpectedToken), 0));
    }
}

#[test]
fn delete_and_get_take_a_key() {
    assert_eq!(
        operation(b"del key4"),
        (Ok(Operation::Delete(DeleteData { key: b"key4" })), 8)
    );
    assert_eq!(
        operation(b"get \"key 1\"  \t"),
        (Ok(Operation::Get(GetData { key: b"key 1" })), 14)
    );
    assert_eq!(
        operation(b"  get\tkey1\nget key2"),
        (Ok(Operation::Get(GetData { key: b"key1" })), 10)
    );
    assert_eq!(
        operation(b"del put"),
        (Ok(Operation::Delete(DeleteData { key: b"put" })), 7)
    );
    assert_eq!(
        operation(b"get key1 key2"),
        (Ok(Operation::Get(GetData { key: b"key1" })), 9)
    );
}

#[test]
fn delete_and_get_need_their_key() {
    for input in [
        &b"del"[..],
        b"del ",
        b"get",
        b"get \t",
        b"get\nkey",
        b"get \"key",
        b"getkey",
        b"delete key",
        b"Get key",
        b"key",
        b"",
        b"\n",
    ] {
        assert_eq!(operation(input), (Err(ParseError::UnexpectedToken), 0));
    }
}

#[test]
fn each_operation_reads_its_own_command_only() {
    let mut scanner = Scanner::new(b"get key");
    assert_eq!(PutData::accept(&mut scanner), Err(ParseError::UnexpectedToken));
    assert_eq!(DeleteData::accept(&mut scanner), Err(ParseError::UnexpectedToken));
    assert_eq!(scanner.current_position(), 0);
    assert_eq!(GetData::accept(&mut scanner), Ok(GetData { key: b"key" }));
    assert!(scanner.is_empty());

    let mut scanner = Scanner::new(b"del key");
    assert_eq!(GetData::accept(&mut scanner), Err(ParseError::UnexpectedToken));
    assert_eq!(PutData::accept(&mut scanner), Err(ParseError::UnexpectedToken));
    assert_eq!(DeleteData::accept(&mut scanner), Ok(DeleteData { key: b"key" }));
}
