use secure_crypt::report::{pdf_data_url, results_date, CalendarDate, DateChoice, ResultsQuery};

#[test]
fn results_date_without_query_is_today() {
    assert_eq!(results_date(&ResultsQuery { date: None }), DateChoice::Today);
}

#[test]
fn results_date_parses_iso_days() {
    assert_eq!(
        results_date(&ResultsQuery { date: Some("2024-02-29".to_string()) }),
        DateChoice::Requested(CalendarDate { year: 2024, month: 2, day: 29 })
    );
}

#[test]
fn results_date_refuses_invalid_days() {
    assert_eq!(
        results_date(&ResultsQuery { date: Some("2023-02-29".to_string()) }),
        DateChoice::Invalid
    );
    assert_eq!(
        results_date(&ResultsQuery { date: Some("29/02/2024".to_string()) }),
        DateChoice::Invalid
    );
}

#[test]
fn pdf_data_url_percent_encodes_html() {
    assert_eq!(
        pdf_data_url("<p>a b</p>"),
        "data:text/html;charset=utf-8,%3Cp%3Ea%20b%3C%2Fp%3E"
    );
    assert_eq!(pdf_data_url("é-_.~"), "data:text/html;charset=utf-8,%C3%A9-_.~");
}
