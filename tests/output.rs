use code_grep::{csv_quote, html_escape};

#[test]
fn test_html_escape() {
    assert_eq!(html_escape("Hello & <world>"), "Hello &amp; &lt;world&gt;");
    assert_eq!(html_escape("\"test\""), "&quot;test&quot;");
}

#[test]
fn html_escape_apostrophe() {
    assert_eq!(html_escape("it's"), "it&#39;s");
}

#[test]
fn csv_fields_double_quotes() {
    assert_eq!(csv_quote("say \"hi\""), "\"say \"\"hi\"\"\"");
    assert_eq!(csv_quote(""), "\"\"");
}
