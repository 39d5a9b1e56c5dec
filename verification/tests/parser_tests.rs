use meme_crawler::parser::{GenericParser, MemesTwParser, NameExtraction, ParserConfig};

#[test]
fn test_memes_tw_parser() {
    let html = r#"
        <div class="row no-gutters mx-n2">
            <div class="-shadow mt-3 mx-2 relative">
                <header><b>測試圖片1</b></header>
                <a><img src="/images/test1.jpg" /></a>
            </div>
        </div>
        "#;

    let parser = MemesTwParser::new().unwrap();
    let results = parser.parse_page(html).unwrap();

    assert_eq!(results.len(), 1);
    assert_eq!(results[0].1, "測試圖片1");
    assert!(results[0].0.contains("test1.jpg"));
}

#[test]
fn test_generic_parser() {
    let html = r#"
        <div class="item">
            <h2 class="title">圖片標題</h2>
            <img class="photo" data-src="photo.jpg" />
        </div>
        "#;

    let config = ParserConfig {
        container_selector: "div.item".to_string(),
        image_selector: "img.photo".to_string(),
        image_attr: "data-src".to_string(),
        name_selector: "h2.title".to_string(),
        name_extraction: NameExtraction::TextContent,
    };

    let parser = GenericParser::new("https://example.com".to_string(), config);
    let results = parser.parse_page(html).unwrap();

    assert_eq!(results.len(), 1);
    assert_eq!(results[0].1, "圖片標題");
    assert_eq!(results[0].0, "https://example.com/photo.jpg");
}

#[test]
fn parser_trims_text_labels() {
    let html = r#"<div class="item"><h2 class="title">  padded name  </h2><img class="photo" src="/p.png" /></div>"#;
    let config = ParserConfig {
        container_selector: "div.item".to_string(),
        image_selector: "img.photo".to_string(),
        image_attr: "src".to_string(),
        name_selector: "h2.title".to_string(),
        name_extraction: NameExtraction::TextContent,
    };
    let parser = GenericParser::new("https://example.com".to_string(), config);
    let results = parser.parse_page(html).unwrap();
    assert_eq!(results.len(), 1);
    assert_eq!(results[0].1, "padded name");
    assert_eq!(results[0].0, "https://example.com/p.png");
}

#[test]
fn parser_reads_attribute_labels_and_falls_back() {
    let html = r#"
        <div class="item"><h2 class="title" data-name="from-attr">text</h2><img class="photo" src="//cdn.example.com/a.png" /></div>
        <div class="item"><img class="photo" src="relative.png" /></div>
        <div class="item"><h2 class="title" data-name="no-image">text</h2></div>
        "#;
    let config = ParserConfig {
        container_selector: "div.item".to_string(),
        image_selector: "img.photo".to_string(),
        image_attr: "src".to_string(),
        name_selector: "h2.title".to_string(),
        name_extraction: NameExtraction::Attribute("data-name".to_string()),
    };
    let parser = GenericParser::custom_site("https://example.com", config);
    let results = parser.parse_page(html).unwrap();
    // The container without an image is dropped; the others keep order.
    assert_eq!(results.len(), 2);
    assert_eq!(results[0].1, "from-attr");
    assert_eq!(results[0].0, "https://cdn.example.com/a.png");
    assert_eq!(results[1].1, "unknown");
    assert_eq!(results[1].0, "https://example.com/relative.png");
}

#[test]
fn parser_rejects_bad_selector() {
    let config = ParserConfig {
        container_selector: "div[".to_string(),
        image_selector: "img".to_string(),
        image_attr: "src".to_string(),
        name_selector: "h2".to_string(),
        name_extraction: NameExtraction::TextContent,
    };
    let parser = GenericParser::new("https://example.com".to_string(), config);
    let result = parser.parse_page("<div></div>");
    assert!(result.is_err());
    assert_eq!(result.unwrap_err().describe(), "parse failure");
}

#[test]
fn memes_tw_parser_base_url() {
    let parser = MemesTwParser::new().unwrap();
    assert_eq!(parser.base_url(), "https://memes.tw");
}
