use tagblock::parse_attribute;
use tagblock::parse_attribute_name;
use tagblock::parse_block;
use tagblock::parse_end_tag;
use tagblock::parse_start_tag;
use tagblock::parse_tag_content;
use tagblock::Block;
use tagblock::ParseFailure;
use tagblock::StartTag;

#[test]
fn test_parse_attribute_name() {
    assert_eq!(
        parse_attribute_name(r#"lang="ts" setup>"#),
        Ok((r#"="ts" setup>"#, "lang"))
    );

    assert_eq!(parse_attribute_name("setup>"), Ok((">", "setup")));

    assert!(parse_attribute_name("> text").is_err());
}

#[test]
fn test_parse_attribute() {
    assert_eq!(
        parse_attribute(r#"lang="ts" setup>"#),
        Ok((" setup>", ("lang", Some("ts"))))
    );

    assert_eq!(parse_attribute("setup>"), Ok((">", ("setup", None))));
}

#[test]
fn test_parse_start_tag() {
    assert_eq!(
        parse_start_tag("<script>"),
        Ok((
            "",
            StartTag {
                name: "script",
                lang: None
            }
        ))
    );

    assert_eq!(
        parse_start_tag("<script >"),
        Ok((
            "",
            StartTag {
                name: "script",
                lang: None
            }
        ))
    );

    assert_eq!(
        parse_start_tag("<script\t>"),
        Ok((
            "",
            StartTag {
                name: "script",
                lang: None
            }
        ))
    );

    assert_eq!(
        parse_start_tag("<script \t>"),
        Ok((
            "",
            StartTag {
                name: "script",
                lang: None
            }
        ))
    );

    assert_eq!(
        parse_start_tag(r#"<script lang="ts" setup>"#),
        Ok((
            "",
            StartTag {
                name: "script",
                lang: Some("ts")
            }
        ))
    );
}

#[test]
fn test_parse_end_tag() {
    assert_eq!(parse_end_tag("</script>"), Ok(("", "script")));
    assert_eq!(parse_end_tag("</script >"), Ok(("", "script")));
    assert_eq!(parse_end_tag("</script\t>"), Ok(("", "script")));
    assert_eq!(parse_end_tag("</script \t>"), Ok(("", "script")));
}

#[test]
fn test_parse_tag_content() {
    assert_eq!(
        parse_tag_content("script", "let value = true;\nconsole.log(value);\n</script>"),
        Ok(("</script>", "let value = true;\nconsole.log(value);\n"))
    );

    assert_eq!(
        parse_tag_content(
            "script",
            "let value = Math.random();\nconsole.log(value < 0.5);\n</script>"
        ),
        Ok((
            "</script>",
            "let value = Math.random();\nconsole.log(value < 0.5);\n"
        ))
    );

    assert_eq!(
        parse_tag_content("template", "<template></template></template>"),
        Ok(("</template>", "<template></template>"))
    );
}

#[test]
fn test_parse_block() {
    assert_eq!(
        parse_block(
            "<script>\nlet value = true;\nconsole.log(value);\n</script>\n<!-- residual data -->"
        ),
        Ok((
            "\n<!-- residual data -->",
            Block {
                start_tag: StartTag {
                    name: "script",
                    lang: None
                },
                raw_start_tag: "<script>",
                raw_end_tag: "</script>",
                content: "let value = true;\nconsole.log(value);\n"
            }
        ))
    );
}

#[test]
fn reconstruction_of_consumed_span() {
    let input = "<script lang=\"ts\">\nlet v = 1;\n</script>tail";
    let (rest, block) = parse_block(input).unwrap();
    assert_eq!(rest, "tail");
    let consumed = &input[..input.len() - rest.len()];
    let rebuilt = format!(
        "{}\n{}{}",
        block.raw_start_tag, block.content, block.raw_end_tag
    );
    assert_eq!(rebuilt, consumed);
}

#[test]
fn reconstruction_without_stripped_newline() {
    let input = "<style>p {}</style>rest";
    let (rest, block) = parse_block(input).unwrap();
    assert_eq!(rest, "rest");
    let consumed = &input[..input.len() - rest.len()];
    let rebuilt = format!(
        "{}{}{}",
        block.raw_start_tag, block.content, block.raw_end_tag
    );
    assert_eq!(rebuilt, consumed);
}

#[test]
fn nested_same_named_tags() {
    let (rest, block) = parse_block("<template><template></template></template>REST").unwrap();
    assert_eq!(block.content, "<template></template>");
    assert_eq!(rest, "REST");
}

#[test]
fn case_insensitive_close_preserves_raw_casing() {
    let (rest, block) = parse_block("<Script>let x = 1;</SCRIPT>after").unwrap();
    assert_eq!(block.start_tag.name, "Script");
    assert_eq!(block.raw_start_tag, "<Script>");
    assert_eq!(block.raw_end_tag, "</SCRIPT>");
    assert_eq!(block.content, "let x = 1;");
    assert_eq!(rest, "after");
}

#[test]
fn case_insensitive_nesting() {
    let (rest, block) = parse_block("<template><TEMPLATE></Template></tEmPlAtE>x").unwrap();
    assert_eq!(block.content, "<TEMPLATE></Template>");
    assert_eq!(rest, "x");
}

#[test]
fn lang_extraction() {
    let (_, st) = parse_start_tag(r#"<script lang="ts" setup>"#).unwrap();
    assert_eq!(st.name, "script");
    assert_eq!(st.lang, Some("ts"));

    let (_, st) = parse_start_tag("<script setup>").unwrap();
    assert_eq!(st.lang, None);

    let (_, st) = parse_start_tag("<script>").unwrap();
    assert_eq!(st.lang, None);
}

#[test]
fn lang_first_occurrence_with_value_wins() {
    let (_, st) = parse_start_tag(r#"<a lang="x" lang="y">"#).unwrap();
    assert_eq!(st.lang, Some("x"));

    let (_, st) = parse_start_tag(r#"<a lang lang="y">"#).unwrap();
    assert_eq!(st.lang, Some("y"));
}

#[test]
fn lang_quoting_variants() {
    let (_, st) = parse_start_tag("<a lang='ts'>").unwrap();
    assert_eq!(st.lang, Some("ts"));

    let (_, st) = parse_start_tag("<a lang = \"ts\">").unwrap();
    assert_eq!(st.lang, Some("ts"));

    let (_, st) = parse_start_tag("<a lang=''>").unwrap();
    assert_eq!(st.lang, Some(""));
}

#[test]
fn self_closing_start_tag() {
    assert_eq!(
        parse_start_tag("<br/>"),
        Ok((
            "",
            StartTag {
                name: "br",
                lang: None
            }
        ))
    );
}

#[test]
fn newline_stripping() {
    let (_, block) = parse_block("<script>\nX\n</script>").unwrap();
    assert_eq!(block.content, "X\n");

    let (_, block) = parse_block("<script>X</script>").unwrap();
    assert_eq!(block.content, "X");
}

#[test]
fn unterminated_block() {
    assert_eq!(
        parse_block("<script>no closing tag"),
        Err(ParseFailure::UnterminatedBlock)
    );
    assert_eq!(
        parse_tag_content("script", ""),
        Err(ParseFailure::UnterminatedBlock)
    );
    assert_eq!(
        parse_tag_content("script", "nothing tagged here"),
        Err(ParseFailure::UnterminatedBlock)
    );
}

#[test]
fn residual_preservation() {
    let (rest, _) = parse_block("<script>\nlet v=1;\n</script>\n<!-- trailing -->").unwrap();
    assert_eq!(rest, "\n<!-- trailing -->");
}

#[test]
fn malformed_start_tag() {
    assert_eq!(
        parse_block("script>x</script>"),
        Err(ParseFailure::MalformedStartTag)
    );
    assert_eq!(
        parse_start_tag("<>"),
        Err(ParseFailure::MalformedStartTag)
    );
    assert_eq!(
        parse_start_tag("<script"),
        Err(ParseFailure::MalformedStartTag)
    );
}

#[test]
fn malformed_end_tag() {
    assert_eq!(
        parse_end_tag("script>"),
        Err(ParseFailure::MalformedEndTag)
    );
    assert_eq!(
        parse_end_tag("</script"),
        Err(ParseFailure::MalformedEndTag)
    );
}

#[test]
fn attribute_name_empty() {
    assert_eq!(
        parse_attribute_name(""),
        Err(ParseFailure::AttributeNameEmpty)
    );
    assert_eq!(
        parse_attribute("> text"),
        Err(ParseFailure::AttributeNameEmpty)
    );
}

#[test]
fn stray_angle_bracket_is_inert() {
    let (rest, block) = parse_block("<script>if (a < b) { f(); }</script>!").unwrap();
    assert_eq!(block.content, "if (a < b) { f(); }");
    assert_eq!(rest, "!");
}

#[test]
fn attribute_name_exclusion_set() {
    // The scan stops at the first excluded character: DELETE, a
    // noncharacter, a quote, `=`.
    assert_eq!(
        parse_attribute_name("ab\u{007F}cd"),
        Ok(("\u{007F}cd", "ab"))
    );
    assert_eq!(
        parse_attribute_name("ab\u{FDD0}cd"),
        Ok(("\u{FDD0}cd", "ab"))
    );
    assert_eq!(
        parse_attribute_name("ab\u{FFFF}cd"),
        Ok(("\u{FFFF}cd", "ab"))
    );
    assert_eq!(parse_attribute_name("ab\"cd"), Ok(("\"cd", "ab")));
    // A tab is not in the exclusion set, so it stays part of the name.
    assert_eq!(
        parse_attribute_name("a\tb=\"x\""),
        Ok(("=\"x\"", "a\tb"))
    );
}

#[test]
fn end_tag_name_may_be_empty() {
    assert_eq!(parse_end_tag("</>"), Ok(("", "")));
    // Whitespace before the name is not part of it, so `>` is not reached.
    assert_eq!(
        parse_end_tag("</ script>"),
        Err(ParseFailure::MalformedEndTag)
    );
}

#[test]
fn multibyte_content() {
    let (rest, block) = parse_block("<script>é中</script>x").unwrap();
    assert_eq!(block.content, "é中");
    assert_eq!(rest, "x");
}

#[test]
fn carriage_return_is_not_stripped() {
    let (_, block) = parse_block("<script>\r\nX</script>").unwrap();
    assert_eq!(block.content, "\r\nX");
}

#[test]
fn other_tags_inside_content_are_ignored() {
    let (rest, block) = parse_block("<template><div><span></span></div></template>z").unwrap();
    assert_eq!(block.content, "<div><span></span></div>");
    assert_eq!(rest, "z");
}
