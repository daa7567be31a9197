use zaku::{
    get_divider, pad_value, ColumnVector, DataType, Dataframe, Field, LiteralVector, RecordBatch,
    RecordBatchPrettifier, Schema, Value, Vectors,
};

fn get_schema() -> Schema {
    let fields = vec![
        Field::new("id".to_string(), DataType::Number),
        Field::new("name".to_string(), DataType::Text),
        Field::new("age".to_string(), DataType::Number),
        Field::new("weight".to_string(), DataType::Number),
    ];
    Schema::new(fields)
}

#[test]
fn test_get_datatype_from_index() {
    let schema = get_schema();
    assert_eq!(
        schema.get_datatype_from_index(&0).unwrap(),
        &DataType::Number
    );
    assert_eq!(schema.get_datatype_from_index(&1).unwrap(), &DataType::Text);
    assert_eq!(
        schema.get_datatype_from_index(&2).unwrap(),
        &DataType::Number
    );
    assert_eq!(
        schema.get_datatype_from_index(&3).unwrap(),
        &DataType::Number
    );
}

#[test]
fn test_select() {
    let schema = get_schema();
    let selected_schema = schema.select(&vec!["id".to_string(), "name".to_string()]);
    assert_eq!(selected_schema.fields.len(), 2);
    assert_eq!(selected_schema.fields[0].name, "id");
    assert_eq!(selected_schema.fields[0].datatype, DataType::Number);
    assert_eq!(selected_schema.fields[1].name, "name");
    assert_eq!(selected_schema.fields[1].datatype, DataType::Text);
}

#[test]
fn test_pad_value() {
    let value = "hello".to_string();
    let space = 10;
    let padded_value = pad_value(value, space);
    assert_eq!(padded_value, " hello      ");
}

#[test]
fn test_get_divider() {
    let cell_space = vec![1, 2, 3];
    let divider = get_divider(&cell_space);
    assert_eq!(divider, "---+----+-----");
}

#[test]
fn prettifier_test_pad_value() {
    let value = "hello".to_string();
    let space = 10;
    let padded_value = pad_value(value, space);
    assert_eq!(padded_value, " hello      ");
}

#[test]
fn prettifier_test_get_divider() {
    let cell_space = vec![1, 2, 3];
    let divider = get_divider(&cell_space);
    assert_eq!(divider, "---+----+-----");
}

#[test]
fn test_get_type_from_string_val() {
    assert_eq!(DataType::get_type_from_string_val("1"), DataType::Number);
    assert_eq!(DataType::get_type_from_string_val("1.0"), DataType::Number);
    assert_eq!(
        DataType::get_type_from_string_val("true"),
        DataType::Boolean
    );
    assert_eq!(
        DataType::get_type_from_string_val("false"),
        DataType::Boolean
    );
    assert_eq!(DataType::get_type_from_string_val("hello"), DataType::Text);
}

#[test]
fn test_get_value_from_string_val() {
    let one = Value::get_value_from_string_val("1", &DataType::Number);
    assert_eq!(one.render(), "1");
    let one_decimal = Value::get_value_from_string_val("1.0", &DataType::Number);
    assert_eq!(one_decimal.render(), "1.0");
    let t = Value::get_value_from_string_val("true", &DataType::Boolean);
    assert_eq!(t.render(), "true");
    let f = Value::get_value_from_string_val("false", &DataType::Boolean);
    assert_eq!(f.render(), "false");
    let h = Value::get_value_from_string_val("hello", &DataType::Text);
    assert_eq!(h.render(), "hello");
    let n = Value::get_value_from_string_val("", &DataType::Number);
    assert_eq!(n.render(), "");
}

fn number(s: &str) -> Value {
    Value::number_checked(s).unwrap()
}

#[test]
fn test_compute_cell_space() {
    let schema = Schema::new(vec![
        Field::new("id".to_string(), DataType::Number),
        Field::new("name".to_string(), DataType::Text),
        Field::new("age".to_string(), DataType::Number),
    ]);
    let rb = RecordBatch::new(
        schema,
        vec![
            Vectors::ColumnVector(ColumnVector::new(
                DataType::Number,
                vec![number("1"), number("2"), number("3")],
            )),
            Vectors::ColumnVector(ColumnVector::new(
                DataType::Text,
                vec![
                    Value::Text("Alice".to_string()),
                    Value::Text("Bob".to_string()),
                    Value::Text("Charlie".to_string()),
                ],
            )),
            Vectors::ColumnVector(ColumnVector::new(
                DataType::Number,
                vec![number("20"), number("21"), number("22")],
            )),
        ],
    );
    let prettifier = RecordBatchPrettifier::new(&rb, true);
    assert_eq!(prettifier.compute_cell_space(), vec![2, 7, 3]);
}

#[test]
fn test_sort() {
    let schema = Schema::new(vec![
        Field::new("1".to_string(), DataType::Number),
        Field::new("2".to_string(), DataType::Number),
    ]);
    let record_batch = RecordBatch::new(
        schema,
        vec![
            Vectors::ColumnVector(ColumnVector::new(
                DataType::Number,
                vec![number("0"), number("2"), number("1"), number("3")],
            )),
            Vectors::ColumnVector(ColumnVector::new(
                DataType::Number,
                vec![number("0"), number("2"), number("1"), number("1")],
            )),
        ],
    );
    let sorted_batch = record_batch.sort(&vec![0, 1], &vec![true, false]).unwrap();
    let ex1 = ["0", "1", "2", "3"];
    let ex2 = ["0", "1", "2", "1"];
    for i in 0..4usize {
        assert_eq!(sorted_batch.columns[0].get_value(&i).render(), ex1[i]);
        assert_eq!(sorted_batch.columns[1].get_value(&i).render(), ex2[i]);
    }
}

#[test]
fn test_get_csv_schema() {
    let content = "id,product_name,is_available,price,quantity,updated_on\n\
1,toothbrush,true,5.00,100,2023-06-06\n\
2,toothpaste,true,10.00,50,2023-01-01\n\
3,shampoo,true,15.50,25,2023-04-04\n\
4,soap,false,2.00,0,2023-02-02\n\
5,shaving cream,true,20.00,10,2023-03-03\n";
    let df = Dataframe::from_csv_text("test.csv", content, ',').unwrap();
    let schema = df.schema();
    let names = ["id", "product_name", "is_available", "price", "quantity", "updated_on"];
    let types = [
        DataType::Number,
        DataType::Text,
        DataType::Boolean,
        DataType::Number,
        DataType::Number,
        DataType::Date,
    ];
    assert_eq!(schema.fields.len(), 6);
    for i in 0..6 {
        assert_eq!(schema.fields[i].name, names[i]);
        assert_eq!(schema.fields[i].datatype, types[i]);
    }
}

#[test]
fn test_load_csv_data() {
    let content = "id,product_name,is_available,price,quantity,updated_on\n\
1,toothbrush,true,5.00,100,2023-06-06\n\
2,toothpaste,true,10.00,50,2023-01-01\n\
3,shampoo,true,15.50,25,2023-04-04\n\
4,soap,false,2.00,0,2023-02-02\n\
5,shaving cream,true,20.00,10,2023-03-03\n";
    let df = Dataframe::from_csv_text("test.csv", content, ',').unwrap();
    let (sink, _) = zaku::execute("SELECT * FROM test", &df).unwrap();
    let batches = sink.materialize().unwrap();
    assert_eq!(batches.len(), 1);
    assert_eq!(batches[0].row_count(), 5);
    assert_eq!(batches[0].column_count(), 6);
    assert_eq!(batches[0].columns[1].get_value(&4).render(), "shaving cream");
    assert_eq!(batches[0].columns[5].get_value(&0).render(), "2023-06-06");
}

#[test]
fn literal_vector_broadcasts() {
    let v = Vectors::LiteralVector(LiteralVector::new(DataType::Number, number("2"), 3));
    assert_eq!(v.size(), 3);
    for i in 0..3usize {
        assert_eq!(v.get_value(&i).render(), "2");
    }
}

#[test]
fn print_header_shows_the_field_names() {
    let schema = Schema::new(vec![
        Field::new("id".to_string(), DataType::Number),
        Field::new("name".to_string(), DataType::Text),
    ]);
    let rb = RecordBatch::new(
        schema,
        vec![
            Vectors::ColumnVector(ColumnVector::new(DataType::Number, vec![number("7")])),
            Vectors::ColumnVector(ColumnVector::new(
                DataType::Text,
                vec![Value::Text("x".to_string())],
            )),
        ],
    );
    let printed = rb.print(true);
    let header_line = printed.lines().next().unwrap();
    let headers = rb.schema.as_header();
    for name in headers.iter() {
        assert!(header_line.contains(name.as_str()));
    }
    assert_eq!(header_line, " id | name ");
}

#[test]
fn test_record_batch_iterator() {
    let schema = Schema::new(vec![
        Field::new("id".to_string(), DataType::Number),
        Field::new("name".to_string(), DataType::Text),
    ]);
    let columns = vec![
        Vectors::LiteralVector(LiteralVector::new(DataType::Number, number("0"), 10)),
        Vectors::LiteralVector(LiteralVector::new(
            DataType::Text,
            Value::Text("dummy".to_string()),
            10,
        )),
    ];
    let record_batch = RecordBatch::new(schema, columns);
    for i in 0..record_batch.column_count() + 1 {
        if i == record_batch.column_count() {
            assert!(record_batch.get(&i).is_err());
        } else {
            let col = record_batch.get(&i).unwrap();
            assert_eq!(col.size(), 10);
        }
    }
}

#[test]
fn aggregate_builder_accepts_empty_lists() {
    // building a grouping succeeds whenever everything resolves, even with
    // nothing to group or fold
    let content = "id,name\n1,a\n2,b\n";
    let df = Dataframe::from_csv_text("t.csv", content, ',').unwrap();
    assert!(df.aggregate(vec![], vec![]).is_ok());
}
