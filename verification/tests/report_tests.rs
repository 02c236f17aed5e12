use budsjetto::model::AppData;

#[test]
fn export_renders_header_and_rows_in_store_order() {
    let mut data = AppData::default();
    data.add_entry_with_id(
        "id1".to_string(),
        "expense".to_string(),
        100,
        "Food".to_string(),
        "2024-03-15".to_string(),
        "lunch".to_string(),
    )
    .unwrap();
    data.add_entry_with_id(
        "id2".to_string(),
        "income".to_string(),
        987654,
        "Salary".to_string(),
        "2024-03-01".to_string(),
        String::new(),
    )
    .unwrap();

    let csv = data.export_csv();
    assert_eq!(
        csv,
        "ID,Type,Amount,Currency,Category,Date,Description\n\
         id1,expense,100,NOK,Food,2024-03-15,\"lunch\"\n\
         id2,income,987654,NOK,Salary,2024-03-01,\"\"\n"
    );
}

#[test]
fn export_doubles_quotes_in_descriptions() {
    let mut data = AppData::default();
    data.add_entry_with_id(
        "id1".to_string(),
        "expense".to_string(),
        5,
        "Misc".to_string(),
        "2024-03-15".to_string(),
        "say \"hi\" twice".to_string(),
    )
    .unwrap();

    let csv = data.export_csv();
    assert_eq!(
        csv,
        "ID,Type,Amount,Currency,Category,Date,Description\n\
         id1,expense,5,NOK,Misc,2024-03-15,\"say \"\"hi\"\" twice\"\n"
    );
}

#[test]
fn export_of_an_empty_store_is_just_the_header() {
    let data = AppData::default();
    assert_eq!(
        data.export_csv(),
        "ID,Type,Amount,Currency,Category,Date,Description\n"
    );
}
