use contact_crawler::contacts::{get_emails, get_phones, phone_number, EMAIL_PATTERN};
use std::collections::HashSet;

fn strings(items: &[&str]) -> Vec<String> {
    items.iter().map(|s| s.to_string()).collect()
}

fn as_set(items: &[String]) -> HashSet<String> {
    items.iter().cloned().collect()
}

#[test]
fn emails_in_plain_text() {
    let emails = get_emails("contact us at foo.bar@example.com or baz@sub.example.co.uk").unwrap();
    assert_eq!(emails.len(), 2);
    assert_eq!(as_set(&emails), as_set(&strings(&["foo.bar@example.com", "baz@sub.example.co.uk"])));
}

#[test]
fn emails_keep_order_of_first_occurrence() {
    let emails = get_emails("b@x.org, a@x.org; b@x.org and again a@x.org, then c@x.org").unwrap();
    assert_eq!(emails, strings(&["b@x.org", "a@x.org", "c@x.org"]));
}

#[test]
fn emails_in_markup() {
    let html = r#"<p>Mail <a href="mailto:info@example.com">info@example.com</a>
        or <b>Sales+eu@shop.example.de</b>.</p>"#;
    let emails = get_emails(html).unwrap();
    assert_eq!(emails, strings(&["info@example.com", "Sales+eu@shop.example.de"]));
}

#[test]
fn no_email_without_top_level_domain() {
    assert_eq!(get_emails("user@localhost, me@host.c, @example.com, plain text").unwrap(), Vec::<String>::new());
    assert_eq!(get_emails("").unwrap(), Vec::<String>::new());
}

#[test]
fn top_level_domain_is_letters_only() {
    assert_eq!(get_emails("x a@b.c|d y").unwrap(), Vec::<String>::new());
    assert_eq!(get_emails("x a@b.cd|ef y").unwrap(), strings(&["a@b.cd"]));
}

#[test]
fn email_ends_at_word_boundary() {
    assert_eq!(get_emails("see a@b.com.").unwrap(), strings(&["a@b.com"]));
    assert_eq!(get_emails("a@b.com1").unwrap(), Vec::<String>::new());
    assert_eq!(get_emails("a@b.co_").unwrap(), Vec::<String>::new());
}

#[test]
fn email_pattern_text() {
    assert_eq!(EMAIL_PATTERN, r"\b[A-Za-z0-9._%+-]+@[A-Za-z0-9.-]+\.[A-Za-z]{2,}\b");
}

#[test]
fn phones_are_deduplicated() {
    let links = strings(&["tel:+1-555-0100", "http://x.com", "tel:+1-555-0100"]);
    assert_eq!(get_phones(&links), strings(&["+1-555-0100"]));
}

#[test]
fn phones_keep_order_of_first_occurrence() {
    let links = strings(&["tel:2", "tel:1", "http://x.com/tel:9", "tel:2", "tel:3", "tel:1"]);
    assert_eq!(get_phones(&links), strings(&["2", "1", "3"]));
}

#[test]
fn only_the_prefix_is_stripped() {
    assert_eq!(get_phones(&strings(&["tel:tel:123"])), strings(&["tel:123"]));
    assert_eq!(get_phones(&strings(&["tel:12tel:3"])), strings(&["12tel:3"]));
}

#[test]
fn prefix_is_literal() {
    let links = strings(&["TEL:1", "Tel:2", " tel:3", "tel", "tel;4", "te", "", "xtel:5"]);
    assert_eq!(get_phones(&links), Vec::<String>::new());
}

#[test]
fn bare_prefix_gives_empty_number() {
    assert_eq!(get_phones(&strings(&["tel:"])), strings(&[""]));
}

#[test]
fn phone_with_non_ascii_text() {
    assert_eq!(get_phones(&strings(&["tel:５５５–0100", "télé:1"])), strings(&["５５５–0100"]));
}

#[test]
fn no_links_no_phones() {
    assert_eq!(get_phones(&[]), Vec::<String>::new());
}

#[test]
fn phone_number_of_one_link() {
    assert_eq!(phone_number("tel:+1-555-0100"), Some("+1-555-0100".to_string()));
    assert_eq!(phone_number("http://x.com"), None);
    assert_eq!(phone_number("tel"), None);
    assert_eq!(phone_number("tel:"), Some(String::new()));
}

#[test]
fn phones_do_not_depend_on_link_order() {
    let a = strings(&["tel:1", "http://x.com", "tel:2", "tel:1"]);
    let b = strings(&["tel:2", "tel:2", "http://x.com", "tel:1"]);
    assert_eq!(as_set(&get_phones(&a)), as_set(&get_phones(&b)));
}

#[test]
fn extraction_twice_gives_the_same() {
    let html = "write to one@example.com, two@example.org or one@example.com";
    assert_eq!(get_emails(html), get_emails(html));
    let links = strings(&["tel:1", "tel:2", "tel:1"]);
    assert_eq!(get_phones(&links), get_phones(&links));
}
