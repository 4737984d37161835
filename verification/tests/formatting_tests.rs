use secure_crypt::formatting::escape_html;

#[test]
fn escape_html_replaces_markup_characters() {
    assert_eq!(
        escape_html("<b>\"Tom\" & 'Jerry'</b>"),
        "&lt;b&gt;&quot;Tom&quot; &amp; &#39;Jerry&#39;&lt;/b&gt;"
    );
}

#[test]
fn escape_html_keeps_plain_text() {
    assert_eq!(escape_html("post_quantum X25519MLKEM768"), "post_quantum X25519MLKEM768");
    assert_eq!(escape_html(""), "");
}

#[test]
fn escape_html_escapes_ampersand_once() {
    assert_eq!(escape_html("&amp;"), "&amp;amp;");
}

#[test]
fn escaped_text_has_no_markup() {
    let escaped = escape_html("<script>alert('x')</script>");
    assert!(!escaped.contains('<'));
    assert!(!escaped.contains('>'));
    assert!(!escaped.contains('"'));
    assert!(!escaped.contains('\''));
}

#[test]
fn escape_html_keeps_non_ascii_text() {
    assert_eq!(escape_html("évaluation → ok"), "évaluation → ok");
}
