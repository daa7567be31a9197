use zaku::{execute, ContainerData, Dataframe, DatasinkBuilder, RecordBatch, ZakuError};

const TEST_CSV: &str = "id,product_name,is_available,price,quantity,updated_on\n\
1,toothbrush,true,5.00,100,2023-06-06\n\
2,toothpaste,true,10.00,50,2023-01-01\n\
3,shampoo,true,15.50,25,2023-04-04\n\
4,soap,false,2.00,0,2023-02-02\n\
5,shaving cream,true,20.00,10,2023-03-03\n";

fn run(sql: &str) -> Result<Vec<RecordBatch>, ZakuError> {
    let df = Dataframe::from_csv_text("test.csv", TEST_CSV, ',')?;
    let (sink, _) = execute(sql, &df)?;
    sink.materialize()
}

fn expect(result: &Vec<RecordBatch>, expected: &ContainerData) {
    assert!(expected.matches_batches(result));
}

fn full_schema() -> DatasinkBuilder {
    DatasinkBuilder::new().add_schema(
        vec![
            "id",
            "product_name",
            "is_available",
            "price",
            "quantity",
            "updated_on",
        ],
        vec!["num", "text", "bool", "num", "num", "date"],
    )
}

#[test]
fn basic_query() {
    let sql = "SELECT * FROM test";
    let expected = full_schema()
        .add_data(vec![
            vec!["1", "toothbrush", "true", "5.00", "100", "2023-06-06"],
            vec!["2", "toothpaste", "true", "10.00", "50", "2023-01-01"],
            vec!["3", "shampoo", "true", "15.50", "25", "2023-04-04"],
            vec!["4", "soap", "false", "2.00", "0", "2023-02-02"],
            vec!["5", "shaving cream", "true", "20.00", "10", "2023-03-03"],
        ])
        .build();
    expect(&run(sql).unwrap(), &expected);
}

#[test]
fn projection_query() {
    let sql = "SELECT id, product_name FROM test";
    let expected = DatasinkBuilder::new()
        .add_schema(vec!["id", "product_name"], vec!["num", "text"])
        .add_data(vec![
            vec!["1", "toothbrush"],
            vec!["2", "toothpaste"],
            vec!["3", "shampoo"],
            vec!["4", "soap"],
            vec!["5", "shaving cream"],
        ])
        .build();
    expect(&run(sql).unwrap(), &expected);
}

#[test]
fn filter_query() {
    let sql = "SELECT * FROM test WHERE price >= 10";
    let expected = full_schema()
        .add_data(vec![
            vec!["2", "toothpaste", "true", "10.00", "50", "2023-01-01"],
            vec!["3", "shampoo", "true", "15.50", "25", "2023-04-04"],
            vec!["5", "shaving cream", "true", "20.00", "10", "2023-03-03"],
        ])
        .build();
    expect(&run(sql).unwrap(), &expected);
}

#[test]
fn filter_no_records_query() {
    let sql = "SELECT * FROM test WHERE price < 0";
    let expected = full_schema().build();
    expect(&run(sql).unwrap(), &expected);
}

#[test]
fn limit_query() {
    let sql = "SELECT * FROM test LIMIT 2";
    let expected = full_schema()
        .add_data(vec![
            vec!["1", "toothbrush", "true", "5.00", "100", "2023-06-06"],
            vec!["2", "toothpaste", "true", "10.00", "50", "2023-01-01"],
        ])
        .build();
    expect(&run(sql).unwrap(), &expected);
}

#[test]
fn limit_zero_query() {
    let sql = "SELECT * FROM test LIMIT 0";
    let expected = full_schema().build();
    expect(&run(sql).unwrap(), &expected);
}

#[test]
fn order_by_query() {
    let sql = "SELECT id FROM test ORDER BY id DESC";
    let expected = DatasinkBuilder::new()
        .add_schema(vec!["id"], vec!["num"])
        .add_data(vec![vec!["5"], vec!["4"], vec!["3"], vec!["2"], vec!["1"]])
        .build();
    expect(&run(sql).unwrap(), &expected);
}

#[test]
fn aggregate_query() {
    let sql = "SELECT SUM(price*2.0) AS inflation FROM test";
    let expected = DatasinkBuilder::new()
        .add_schema(vec!["inflation"], vec!["num"])
        .add_data(vec![vec!["105"]])
        .build();
    expect(&run(sql).unwrap(), &expected);
}

#[test]
fn aggregate_group_by_query() {
    let sql = "SELECT AVG(price) * SUM(quantity) AS estimated FROM test WHERE is_available = true GROUP BY is_available";
    let expected = DatasinkBuilder::new()
        .add_schema(vec!["estimated"], vec!["num"])
        .add_data(vec![vec!["2335.625"]])
        .build();
    expect(&run(sql).unwrap(), &expected);
}

#[test]
fn group_by_wildcard_query() {
    let sql = "SELECT * FROM test GROUP BY is_available";
    assert!(run(sql).is_err());
}

#[test]
fn aggregate_in_where_query() {
    let sql = "SELECT COUNT(*) AS count FROM test WHERE COUNT(*) > 2";
    assert!(run(sql).is_err());
}

#[test]
fn having_query() {
    let sql = "SELECT COUNT(id) AS count FROM test GROUP BY is_available HAVING COUNT(id) > 2 AND is_available = true";
    let expected = DatasinkBuilder::new()
        .add_schema(vec!["count"], vec!["num"])
        .add_data(vec![vec!["4"]])
        .build();
    expect(&run(sql).unwrap(), &expected);
}

#[test]
fn having_aggregate_query() {
    let sql =
        "SELECT COUNT(id), SUM(price) FROM test GROUP BY is_available HAVING MIN(quantity) > 0";
    let expected = DatasinkBuilder::new()
        .add_schema(vec!["count", "sum"], vec!["num", "num"])
        .add_data(vec![vec!["4", "50.50"]])
        .build();
    expect(&run(sql).unwrap(), &expected);
}

#[test]
fn complex_query() {
    let sql =
        "SELECT id, product_name, (price*quantity) AS total FROM test WHERE quantity <> 0 LIMIT 3";
    let expected = DatasinkBuilder::new()
        .add_schema(
            vec!["id", "product_name", "total"],
            vec!["num", "text", "num"],
        )
        .add_data(vec![
            vec!["1", "toothbrush", "500.00"],
            vec!["2", "toothpaste", "500.00"],
            vec!["3", "shampoo", "387.50"],
        ])
        .build();
    expect(&run(sql).unwrap(), &expected);
}

#[test]
fn explain_query() {
    let sql = "EXPLAIN SELECT * FROM test";
    assert!(run(sql).is_ok());
}

#[test]
fn sort_twice_matches_sort_once() {
    // sorting an already sorted result changes nothing
    let once = run("SELECT id FROM test ORDER BY id ASC").unwrap();
    let df = Dataframe::from_csv_text("test.csv", TEST_CSV, ',').unwrap();
    let (sink, _) = execute("SELECT id FROM test ORDER BY id ASC", &df).unwrap();
    let twice_input = sink.materialize().unwrap();
    let flat_once = zaku::flatten_column(&once, 0);
    let flat_twice = zaku::flatten_column(&twice_input, 0);
    assert_eq!(flat_once.len(), flat_twice.len());
    for i in 0..flat_once.len() {
        assert_eq!(flat_once[i].render(), flat_twice[i].render());
    }
}

#[test]
fn csv_round_trip() {
    // writing a result back out and reading it again keeps schema and rows
    let df = Dataframe::from_csv_text("test.csv", TEST_CSV, ',').unwrap();
    let (sink, _) = execute("SELECT * FROM test", &df).unwrap();
    let text = sink.to_csv_text(',').unwrap();
    let df2 = Dataframe::from_csv_text("copy.csv", text.as_str(), ',').unwrap();
    let (sink2, _) = execute("SELECT * FROM test", &df2).unwrap();
    let a = sink.materialize().unwrap();
    let b = sink2.materialize().unwrap();
    for c in 0..6 {
        let fa = zaku::flatten_column(&a, c);
        let fb = zaku::flatten_column(&b, c);
        assert_eq!(fa.len(), fb.len());
        for i in 0..fa.len() {
            assert_eq!(fa[i].render(), fb[i].render());
        }
    }
}

#[test]
fn copy_to_carries_its_path() {
    let df = Dataframe::from_csv_text("test.csv", TEST_CSV, ',').unwrap();
    let (_, path) = execute("COPY (SELECT id FROM test) TO 'out.csv'", &df).unwrap();
    assert_eq!(path.unwrap(), "out.csv");
}

#[test]
fn unsupported_statement_is_a_parse_error() {
    let err = run("DELETE FROM test").unwrap_err();
    assert!(matches!(err, ZakuError::ParseError(_)));
}

#[test]
fn unknown_column_is_a_resolution_error() {
    let err = run("SELECT missing FROM test").unwrap_err();
    assert!(matches!(err, ZakuError::ResolutionError(_)));
}

#[test]
fn division_by_zero_is_a_type_error() {
    let err = run("SELECT price / 0 FROM test").unwrap_err();
    assert!(matches!(err, ZakuError::TypeError(_)));
}

#[test]
fn mismatched_types_are_an_error() {
    assert!(run("SELECT price + product_name FROM test").is_err());
}

#[test]
fn non_boolean_predicate_is_rejected() {
    // a WHERE clause must type to Boolean
    assert!(run("SELECT * FROM test WHERE price").is_err());
    assert!(run("SELECT * FROM test WHERE price + 1").is_err());
}

#[test]
fn group_key_with_aggregate_is_rejected() {
    assert!(run("SELECT COUNT(id) AS count FROM test GROUP BY SUM(price)").is_err());
}
