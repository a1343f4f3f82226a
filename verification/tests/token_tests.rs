use saba_core::attribute::Attribute;
use saba_core::token::{HtmlToken, HtmlTokenizer};

#[test]
fn test_empty() {
    let html = "".to_string();
    let mut tokenizer = HtmlTokenizer::new(html);
    assert_eq!(tokenizer.next(), None);
}

#[test]
fn test_start_and_end_tag() {
    let html = "<body></body>".to_string();
    let mut tokenizer = HtmlTokenizer::new(html);
    let expected = [
        HtmlToken::StartTag {
            tag: "body".to_string(),
            self_closing: false,
            attributes: Vec::new(),
        },
        HtmlToken::EndTag {
            tag: "body".to_string(),
        },
    ];

    for e in expected {
        assert_eq!(Some(e), tokenizer.next());
    }
}

#[test]
fn test_attributes() {
    let html = "<p class=\"A\" id=\"B\" foo=bar></p>".to_string();
    let mut tokenizer = HtmlTokenizer::new(html);
    let mut attr1 = Attribute::new();
    attr1.addr_char('c', true);
    attr1.addr_char('l', true);
    attr1.addr_char('a', true);
    attr1.addr_char('s', true);
    attr1.addr_char('s', true);
    attr1.addr_char('A', false);

    let mut attr2 = Attribute::new();
    attr2.addr_char('i', true);
    attr2.addr_char('d', true);
    attr2.addr_char('B', false);

    let mut attr3 = Attribute::new();
    attr3.addr_char('f', true);
    attr3.addr_char('o', true);
    attr3.addr_char('o', true);
    attr3.addr_char('b', false);
    attr3.addr_char('a', false);
    attr3.addr_char('r', false);

    let expected = [
        HtmlToken::StartTag {
            tag: "p".to_string(),
            self_closing: false,
            attributes: vec![attr1, attr2, attr3],
        },
        HtmlToken::EndTag {
            tag: "p".to_string(),
        },
    ];

    for e in expected {
        assert_eq!(Some(e), tokenizer.next());
    }
}

#[test]
fn test_self_closing_tag() {
    let html = "<img />".to_string();
    let mut tokenizer = HtmlTokenizer::new(html);
    let expected = [HtmlToken::StartTag {
        tag: "img".to_string(),
        self_closing: true,
        attributes: Vec::new(),
    }];
    for e in expected {
        assert_eq!(Some(e), tokenizer.next());
    }
}

#[test]
fn test_script_tag() {
    let html = "<script>js code;</script>".to_string();
    let mut tokenizer = HtmlTokenizer::new(html);
    let expected = [
        HtmlToken::StartTag {
            tag: "script".to_string(),
            self_closing: false,
            attributes: Vec::new(),
        },
        HtmlToken::Char('j'),
        HtmlToken::Char('s'),
        HtmlToken::Char(' '),
        HtmlToken::Char('c'),
        HtmlToken::Char('o'),
        HtmlToken::Char('d'),
        HtmlToken::Char('e'),
        HtmlToken::Char(';'),
        HtmlToken::EndTag {
            tag: "script".to_string(),
        },
    ];
    for e in expected {
        assert_eq!(Some(e), tokenizer.next());
    }
}

#[test]
fn test_uppercase_names_are_lowered() {
    let html = "<BODY ID=X></BODY>".to_string();
    let mut tokenizer = HtmlTokenizer::new(html);
    let mut attr = Attribute::new();
    attr.addr_char('i', true);
    attr.addr_char('d', true);
    attr.addr_char('X', false);
    let expected = [
        HtmlToken::StartTag {
            tag: "body".to_string(),
            self_closing: false,
            attributes: vec![attr],
        },
        HtmlToken::EndTag {
            tag: "body".to_string(),
        },
    ];
    for e in expected {
        assert_eq!(Some(e), tokenizer.next());
    }
}

#[test]
fn test_same_input_same_tokens() {
    let html = "<p class=\"A\">x<br/></p>";
    let mut first = HtmlTokenizer::new(html.to_string());
    let mut second = HtmlTokenizer::new(html.to_string());
    let mut tokens_first = Vec::new();
    while let Some(t) = first.next() {
        tokens_first.push(t);
    }
    let mut tokens_second = Vec::new();
    while let Some(t) = second.next() {
        tokens_second.push(t);
    }
    assert_eq!(tokens_first, tokens_second);
    assert!(!tokens_first.is_empty());
}

#[test]
fn test_truncated_tag_ends_in_eof() {
    let html = "<body".to_string();
    let mut tokenizer = HtmlTokenizer::new(html);
    assert_eq!(Some(HtmlToken::Eof), tokenizer.next());
    assert_eq!(None, tokenizer.next());
}

#[test]
fn test_lone_open_angle_ends_in_eof() {
    let html = "<".to_string();
    let mut tokenizer = HtmlTokenizer::new(html);
    assert_eq!(Some(HtmlToken::Eof), tokenizer.next());
    assert_eq!(None, tokenizer.next());
}

#[test]
fn test_text_only() {
    let html = "ab".to_string();
    let mut tokenizer = HtmlTokenizer::new(html);
    assert_eq!(Some(HtmlToken::Char('a')), tokenizer.next());
    assert_eq!(Some(HtmlToken::Char('b')), tokenizer.next());
    assert_eq!(None, tokenizer.next());
}

#[test]
fn test_attribute_name_and_value() {
    let mut attr = Attribute::new();
    attr.addr_char('i', true);
    attr.addr_char('d', true);
    attr.addr_char('x', false);
    assert_eq!(attr.name(), "id".to_string());
    assert_eq!(attr.value(), "x".to_string());
}

#[test]
fn test_malformed_self_closing_is_skipped() {
    let html = "<br /x></br>".to_string();
    let mut tokenizer = HtmlTokenizer::new(html);
    let expected = [
        HtmlToken::StartTag {
            tag: "br".to_string(),
            self_closing: true,
            attributes: Vec::new(),
        },
        HtmlToken::EndTag {
            tag: "br".to_string(),
        },
    ];
    for e in expected {
        assert_eq!(Some(e), tokenizer.next());
    }
}
