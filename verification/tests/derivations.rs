use nix_derivation_parser::collections::StringMap;
use nix_derivation_parser::derivations::parsers::{
    parse_builder, parse_builder_args, parse_derivation, parse_derivation_input,
    parse_derivation_inputs, parse_derivation_output, parse_derivation_outputs,
    parse_derive_expression, parse_environment_variable, parse_environment_variables,
    parse_source_inputs, parse_strings, parse_system,
};
use nix_derivation_parser::derivations::types::{Derivation, DerivationInput, DerivationOutput};
use nix_derivation_parser::error::{ErrorKind, ParseError};
use nix_derivation_parser::tokens::Token;

fn failure(kind: ErrorKind, rest: &str) -> ParseError<'_> {
    ParseError { kind, rest }
}

fn unexpected(expected: Token, rest: &str) -> ParseError<'_> {
    ParseError { kind: ErrorKind::UnexpectedToken { expected }, rest }
}

fn plain_output(path: &str) -> DerivationOutput {
    DerivationOutput { path: path.to_string(), hash_algo: "".to_string(), hash: "".to_string() }
}

fn names(list: &[&str]) -> DerivationInput {
    DerivationInput { value: list.iter().map(|name| name.to_string()).collect() }
}

#[test]
fn derivation_output_all_empty() {
    assert_eq!(
        parse_derivation_output(r#"("","","","")"#),
        Ok((
            "",
            (
                "".to_string(),
                DerivationOutput {
                    path: "".to_string(),
                    hash_algo: "".to_string(),
                    hash: "".to_string(),
                }
            )
        ))
    );
}

#[test]
fn derivation_output_minimal() {
    assert_eq!(
        parse_derivation_output(
            r#"("out","/nix/store/l5x91w2x83z33alsm5pmgl1gslbaqiyy-nixos-system-massflash-24.05.20241009.d51c286","","")"#,
        ),
        Ok((
            "",
            (
                "out".to_string(),
                DerivationOutput {
                    path: "/nix/store/l5x91w2x83z33alsm5pmgl1gslbaqiyy-nixos-system-massflash-24.05.20241009.d51c286"
                        .to_string(),
                    hash_algo: "".to_string(),
                    hash: "".to_string(),
                }
            )
        ))
    );
}

#[test]
fn derivation_outputs_empty() {
    assert_eq!(parse_derivation_outputs(r#"[]"#), Err(failure(ErrorKind::EmptyRequiredList, "]")));
}

#[test]
fn derivation_output_shadow() {
    let input = [
        r#"["#,
        r#"("dev","/nix/store/0fji8fg0z6gi3zyvsad7gxamx4ca2477-shadow-4.14.6-dev","","")"#,
        r#","#,
        r#"("man","/nix/store/9bzr2i2vvvjqfrbkrxm4j4zxq73im9nf-shadow-4.14.6-man","","")"#,
        r#","#,
        r#"("out","/nix/store/gwihsgkd13xmk8vwfn2k1nkdi9bys42x-shadow-4.14.6","","")"#,
        r#","#,
        r#"("su","/nix/store/w7lf813b5w0zrmh9sbrwm9xnnm1sh1d1-shadow-4.14.6-su","","")"#,
        r#"]"#,
    ]
    .concat();
    assert_eq!(
        parse_derivation_outputs(&input),
        Ok((
            "",
            StringMap::from_entries(vec![
                (
                    "dev".to_string(),
                    DerivationOutput {
                        path: "/nix/store/0fji8fg0z6gi3zyvsad7gxamx4ca2477-shadow-4.14.6-dev"
                            .to_string(),
                        hash_algo: "".to_string(),
                        hash: "".to_string(),
                    }
                ),
                (
                    "man".to_string(),
                    DerivationOutput {
                        path: "/nix/store/9bzr2i2vvvjqfrbkrxm4j4zxq73im9nf-shadow-4.14.6-man"
                            .to_string(),
                        hash_algo: "".to_string(),
                        hash: "".to_string(),
                    }
                ),
                (
                    "out".to_string(),
                    DerivationOutput {
                        path: "/nix/store/gwihsgkd13xmk8vwfn2k1nkdi9bys42x-shadow-4.14.6"
                            .to_string(),
                        hash_algo: "".to_string(),
                        hash: "".to_string(),
                    }
                ),
                (
                    "su".to_string(),
                    DerivationOutput {
                        path: "/nix/store/w7lf813b5w0zrmh9sbrwm9xnnm1sh1d1-shadow-4.14.6-su"
                            .to_string(),
                        hash_algo: "".to_string(),
                        hash: "".to_string(),
                    }
                ),
            ])
        ))
    );
}

#[test]
fn derivation_inputs_shadow() {
    let entries = [
        r#"("/nix/store/2a4nqx30swmddxgd5f3y1h8gynwb1mp9-bison-3.8.2.drv",["out"])"#,
        r#"("/nix/store/81l2lyg7hx6zwlb7yamncj1b2pbz5rj1-tcb-1.2.drv",["dev"])"#,
        r#"("/nix/store/9jqhmw0ksi0gab01asfd8gfj3wv3ahg6-docbook-xsl-nons-1.79.2.drv",["out"])"#,
        r#"("/nix/store/9vyx2lhbiq2c6jg6xz68whkl29qy60j2-autoreconf-hook.drv",["out"])"#,
        r#"("/nix/store/b5gkdv8336qp2wx7qppmd54nl29y0zh4-libxcrypt-4.4.36.drv",["out"])"#,
        r#"("/nix/store/d4rparlxpipwi3y717ijj917h0lbmrbj-glibc-2.39-52.drv",["bin"])"#,
        r#"("/nix/store/dgj37ph9745jy0bnzfz2hl1x8yjhaawy-itstool-2.0.7.drv",["out"])"#,
        r#"("/nix/store/hl008qyglrzrsyg59pc499jxaf1rvgjz-source.drv",["out"])"#,
        r#"("/nix/store/hll9cxnh7mm2maiy06vbxl6zk2y65kvh-fix-implicit-getdef_bool.patch.drv",["out"])"#,
        r#"("/nix/store/icld2xsizd7xabkfr396chagxcv7qaal-libxslt-1.1.39.drv",["dev"])"#,
        r#"("/nix/store/kblxy5ggi81bli1vkz550vpvmy36wlbp-linux-pam-1.6.1.drv",["out"])"#,
        r#"("/nix/store/lzc3r3m5yp5xj9qnbz56zrkq94d5hhsy-flex-2.6.4.drv",["out"])"#,
        r#"("/nix/store/nz98jzc49vlkky3vpq5lwjxh94b207fh-pkg-config-wrapper-0.29.2.drv",["out"])"#,
        r#"("/nix/store/pfkmysygw53mz830rhwfkadnzdxv96yw-libxml2-2.12.7.drv",["dev"])"#,
        r#"("/nix/store/wkgn8l6fyq3avhcpw1caj2r1z9dsw4r0-docbook-xml-4.5.drv",["out"])"#,
        r#"("/nix/store/wql9zbydwdr0nqxkm20crcbhn68wb4pc-stdenv-linux.drv",["out"])"#,
        r#"("/nix/store/xzz7s4cc4bakhaavx3qyn10sl9w7x445-libbsd-0.11.8.drv",["dev"])"#,
        r#"("/nix/store/ysv6wz83jkvg7d65j0js4bml9k0yc4sv-bash-5.2p32.drv",["out"])"#,
    ];
    let expected = StringMap::from_entries(vec![
        (
            "/nix/store/2a4nqx30swmddxgd5f3y1h8gynwb1mp9-bison-3.8.2.drv".to_string(),
            DerivationInput { value: vec!["out".to_string()] },
        ),
        (
            "/nix/store/81l2lyg7hx6zwlb7yamncj1b2pbz5rj1-tcb-1.2.drv".to_string(),
            DerivationInput { value: vec!["dev".to_string()] },
        ),
        (
            "/nix/store/9jqhmw0ksi0gab01asfd8gfj3wv3ahg6-docbook-xsl-nons-1.79.2.drv".to_string(),
            DerivationInput { value: vec!["out".to_string()] },
        ),
        (
            "/nix/store/9vyx2lhbiq2c6jg6xz68whkl29qy60j2-autoreconf-hook.drv".to_string(),
            DerivationInput { value: vec!["out".to_string()] },
        ),
        (
            "/nix/store/b5gkdv8336qp2wx7qppmd54nl29y0zh4-libxcrypt-4.4.36.drv".to_string(),
            DerivationInput { value: vec!["out".to_string()] },
        ),
        (
            "/nix/store/d4rparlxpipwi3y717ijj917h0lbmrbj-glibc-2.39-52.drv".to_string(),
            DerivationInput { value: vec!["bin".to_string()] },
        ),
        (
            "/nix/store/dgj37ph9745jy0bnzfz2hl1x8yjhaawy-itstool-2.0.7.drv".to_string(),
            DerivationInput { value: vec!["out".to_string()] },
        ),
        (
            "/nix/store/hl008qyglrzrsyg59pc499jxaf1rvgjz-source.drv".to_string(),
            DerivationInput { value: vec!["out".to_string()] },
        ),
        (
            "/nix/store/hll9cxnh7mm2maiy06vbxl6zk2y65kvh-fix-implicit-getdef_bool.patch.drv"
                .to_string(),
            DerivationInput { value: vec!["out".to_string()] },
        ),
        (
            "/nix/store/icld2xsizd7xabkfr396chagxcv7qaal-libxslt-1.1.39.drv".to_string(),
            DerivationInput { value: vec!["dev".to_string()] },
        ),
        (
            "/nix/store/kblxy5ggi81bli1vkz550vpvmy36wlbp-linux-pam-1.6.1.drv".to_string(),
            DerivationInput { value: vec!["out".to_string()] },
        ),
        (
            "/nix/store/lzc3r3m5yp5xj9qnbz56zrkq94d5hhsy-flex-2.6.4.drv".to_string(),
            DerivationInput { value: vec!["out".to_string()] },
        ),
        (
            "/nix/store/nz98jzc49vlkky3vpq5lwjxh94b207fh-pkg-config-wrapper-0.29.2.drv".to_string(),
            DerivationInput { value: vec!["out".to_string()] },
        ),
        (
            "/nix/store/pfkmysygw53mz830rhwfkadnzdxv96yw-libxml2-2.12.7.drv".to_string(),
            DerivationInput { value: vec!["dev".to_string()] },
        ),
        (
            "/nix/store/wkgn8l6fyq3avhcpw1caj2r1z9dsw4r0-docbook-xml-4.5.drv".to_string(),
            DerivationInput { value: vec!["out".to_string()] },
        ),
        (
            "/nix/store/wql9zbydwdr0nqxkm20crcbhn68wb4pc-stdenv-linux.drv".to_string(),
            DerivationInput { value: vec!["out".to_string()] },
        ),
        (
            "/nix/store/xzz7s4cc4bakhaavx3qyn10sl9w7x445-libbsd-0.11.8.drv".to_string(),
            DerivationInput { value: vec!["dev".to_string()] },
        ),
        (
            "/nix/store/ysv6wz83jkvg7d65j0js4bml9k0yc4sv-bash-5.2p32.drv".to_string(),
            DerivationInput { value: vec!["out".to_string()] },
        ),
    ]);
    assert_eq!(expected.len(), 18);

    // The entries with `,` between them, as the grammar has them.
    let separated = [r#"["#, entries.join(",").as_str(), r#"]"#].concat();
    assert_eq!(parse_derivation_inputs(&separated), Ok(("", expected)));

    // The entries one behind the other are no list: a `,` or a `]` has to
    // stand behind the first one.
    let unseparated = [r#"["#, entries.concat().as_str(), r#"]"#].concat();
    let behind_first = &unseparated[1 + entries[0].len()..];
    assert_eq!(
        parse_derivation_inputs(&unseparated),
        Err(unexpected(Token::ListClose, behind_first))
    );
}

#[test]
fn lists_need_separators_and_no_trailing_one() {
    assert_eq!(
        parse_derivation_outputs(r#"[("out","/a","","")("dev","/b","","")]"#),
        Err(unexpected(Token::ListClose, r#"("dev","/b","","")]"#))
    );
    assert_eq!(
        parse_derivation_outputs(r#"[("out","/a","",""),]"#),
        Err(unexpected(Token::TupleOpen, "]"))
    );
    assert_eq!(
        parse_derivation_inputs(r#"[("/a.drv",["out"]),]"#),
        Err(unexpected(Token::TupleOpen, "]"))
    );
}

#[test]
fn output_has_name_path_algorithm_and_hash() {
    let (rest, (name, output)) =
        parse_derivation_output(r#"("out","/nix/store/abc-pkg","","")"#).unwrap();
    assert_eq!(rest, "");
    assert_eq!(name, "out");
    assert_eq!(output.path, "/nix/store/abc-pkg");
    assert_eq!(output.hash_algo, "");
    assert_eq!(output.hash, "");
}

#[test]
fn fixed_output_keeps_its_hash() {
    assert_eq!(
        parse_derivation_output(r#"("out","/nix/store/abc-src.tar.gz","sha256","0f3a")tail"#),
        Ok((
            "tail",
            (
                "out".to_string(),
                DerivationOutput {
                    path: "/nix/store/abc-src.tar.gz".to_string(),
                    hash_algo: "sha256".to_string(),
                    hash: "0f3a".to_string(),
                }
            )
        ))
    );
}

#[test]
fn output_failures_point_at_the_missing_token() {
    assert_eq!(parse_derivation_output(""), Err(failure(ErrorKind::UnexpectedEndOfInput, "")));
    assert_eq!(
        parse_derivation_output(r#"["out"]"#),
        Err(unexpected(Token::TupleOpen, r#"["out"]"#))
    );
    assert_eq!(
        parse_derivation_output(r#"("out" "/a","","")"#),
        Err(unexpected(Token::Comma, r#" "/a","","")"#))
    );
    assert_eq!(
        parse_derivation_output(r#"("out","/a","")"#),
        Err(unexpected(Token::Comma, ")"))
    );
    assert_eq!(
        parse_derivation_output(r#"("out","/a","","","")"#),
        Err(unexpected(Token::TupleClose, r#","")"#))
    );
    assert_eq!(
        parse_derivation_output(r#"("out",/a,"","")"#),
        Err(unexpected(Token::Quote, r#"/a,"","")"#))
    );
    assert_eq!(
        parse_derivation_output(r#"("out","/a\q","","")"#),
        Err(failure(ErrorKind::InvalidEscape, r#"\q","","")"#))
    );
}

#[test]
fn outputs_with_several_entries() {
    let (rest, outputs) =
        parse_derivation_outputs(r#"[("out","/a","",""),("dev","/b","sha256","ff")],"#).unwrap();
    assert_eq!(rest, ",");
    assert_eq!(outputs.len(), 2);
    assert_eq!(outputs.get("out"), Some(&plain_output("/a")));
    assert_eq!(
        outputs.get("dev"),
        Some(&DerivationOutput {
            path: "/b".to_string(),
            hash_algo: "sha256".to_string(),
            hash: "ff".to_string(),
        })
    );
    assert_eq!(outputs.get("man"), None);
}

#[test]
fn later_output_replaces_earlier_one_of_the_same_name() {
    let (rest, outputs) = parse_derivation_outputs(
        r#"[("out","/first","",""),("dev","/dev","",""),("out","/second","sha256","ab")]"#,
    )
    .unwrap();
    assert_eq!(rest, "");
    assert_eq!(outputs.len(), 2);
    assert_eq!(
        outputs.get("out"),
        Some(&DerivationOutput {
            path: "/second".to_string(),
            hash_algo: "sha256".to_string(),
            hash: "ab".to_string(),
        })
    );
    assert_eq!(outputs.get("dev"), Some(&plain_output("/dev")));
}

#[test]
fn later_input_replaces_earlier_one_of_the_same_path() {
    let (_, inputs) =
        parse_derivation_inputs(r#"[("/a.drv",["out"]),("/a.drv",["dev","man"])]"#).unwrap();
    assert_eq!(inputs.len(), 1);
    assert_eq!(inputs.get("/a.drv"), Some(&names(&["dev", "man"])));
}

#[test]
fn input_needs_a_name() {
    assert_eq!(
        parse_derivation_input(r#"("/a.drv",["out","dev"])x"#),
        Ok(("x", ("/a.drv".to_string(), names(&["out", "dev"]))))
    );
    assert_eq!(
        parse_derivation_input(r#"("/a.drv",[])"#),
        Err(failure(ErrorKind::EmptyRequiredList, "])"))
    );
    assert_eq!(
        parse_derivation_input(r#"("/a.drv","out")"#),
        Err(unexpected(Token::ListOpen, r#""out")"#))
    );
}

#[test]
fn inputs_may_be_empty() {
    let (rest, inputs) = parse_derivation_inputs("[],").unwrap();
    assert_eq!(rest, ",");
    assert_eq!(inputs.len(), 0);
}

#[test]
fn string_lists_keep_order_and_repetitions() {
    assert_eq!(parse_source_inputs("[]"), Ok(("", vec![])));
    assert_eq!(
        parse_source_inputs(r#"["/b","/a","/b"]x"#),
        Ok(("x", vec!["/b".to_string(), "/a".to_string(), "/b".to_string()]))
    );
    assert_eq!(
        parse_builder_args(r#"["-e","/nix/store/x-builder.sh"]"#),
        Ok(("", vec!["-e".to_string(), "/nix/store/x-builder.sh".to_string()]))
    );
    assert_eq!(parse_strings(false, "[]"), Ok(("", vec![])));
    assert_eq!(parse_strings(true, "[]"), Err(failure(ErrorKind::EmptyRequiredList, "]")));
    assert_eq!(parse_strings(true, r#"["a"]"#), Ok(("", vec!["a".to_string()])));
}

#[test]
fn string_list_failures() {
    assert_eq!(parse_source_inputs(""), Err(failure(ErrorKind::UnexpectedEndOfInput, "")));
    assert_eq!(parse_source_inputs("["), Err(failure(ErrorKind::UnexpectedEndOfInput, "")));
    assert_eq!(parse_source_inputs(r#"["a""#), Err(failure(ErrorKind::UnexpectedEndOfInput, "")));
    assert_eq!(parse_source_inputs(r#"["a","#), Err(failure(ErrorKind::UnexpectedEndOfInput, "")));
    assert_eq!(parse_source_inputs(r#"["a"#), Err(failure(ErrorKind::UnterminatedString, "")));
    assert_eq!(parse_source_inputs(r#"("a")"#), Err(unexpected(Token::ListOpen, r#"("a")"#)));
    assert_eq!(parse_source_inputs(r#"["a" "b"]"#), Err(unexpected(Token::ListClose, r#" "b"]"#)));
    assert_eq!(parse_source_inputs(r#"["a",]"#), Err(unexpected(Token::Quote, "]")));
    assert_eq!(parse_source_inputs(r#"[,"a"]"#), Err(unexpected(Token::Quote, r#","a"]"#)));
}

#[test]
fn system_and_builder_are_strings() {
    assert_eq!(parse_system(r#""x86_64-linux","#), Ok((",", "x86_64-linux".to_string())));
    assert_eq!(
        parse_builder(r#""/nix/store/x-bash/bin/bash","#),
        Ok((",", "/nix/store/x-bash/bin/bash".to_string()))
    );
    assert_eq!(parse_system("x86"), Err(unexpected(Token::Quote, "x86")));
}

#[test]
fn environment_keeps_order_and_repeated_names() {
    assert_eq!(
        parse_environment_variable(r#"("name","value")x"#),
        Ok(("x", ("name".to_string(), "value".to_string())))
    );
    assert_eq!(parse_environment_variables("[]"), Ok(("", vec![])));
    assert_eq!(
        parse_environment_variables(r#"[("b","1"),("a","2"),("b","3")]"#),
        Ok((
            "",
            vec![
                ("b".to_string(), "1".to_string()),
                ("a".to_string(), "2".to_string()),
                ("b".to_string(), "3".to_string()),
            ]
        ))
    );
    assert_eq!(
        parse_environment_variable(r#"("name")"#),
        Err(unexpected(Token::Comma, ")"))
    );
}

fn full_text() -> String {
    [
        r#"Derive([("dev","/nix/store/d-pkg-dev","",""),("out","/nix/store/o-pkg","sha256","abc")],"#,
        r#"[("/nix/store/a.drv",["out"]),("/nix/store/b.drv",["dev","out"]),("/nix/store/c.drv",["bin"])],"#,
        r#"["/nix/store/src2","/nix/store/src1"],"#,
        r#""x86_64-linux","/nix/store/bash/bin/bash",["-e","builder.sh"],"#,
        r#"[("name","pkg"),("out","/nix/store/o-pkg"),("text","line one\nline \"two\"\ttab"),("name","again")])"#,
    ]
    .concat()
}

fn full_derivation() -> Derivation {
    Derivation {
        outputs: StringMap::from_entries(vec![
            ("dev".to_string(), plain_output("/nix/store/d-pkg-dev")),
            (
                "out".to_string(),
                DerivationOutput {
                    path: "/nix/store/o-pkg".to_string(),
                    hash_algo: "sha256".to_string(),
                    hash: "abc".to_string(),
                },
            ),
        ]),
        input_drvs: StringMap::from_entries(vec![
            ("/nix/store/a.drv".to_string(), names(&["out"])),
            ("/nix/store/b.drv".to_string(), names(&["dev", "out"])),
            ("/nix/store/c.drv".to_string(), names(&["bin"])),
        ]),
        input_srcs: vec!["/nix/store/src2".to_string(), "/nix/store/src1".to_string()],
        system: "x86_64-linux".to_string(),
        builder: "/nix/store/bash/bin/bash".to_string(),
        args: vec!["-e".to_string(), "builder.sh".to_string()],
        env: vec![
            ("name".to_string(), "pkg".to_string()),
            ("out".to_string(), "/nix/store/o-pkg".to_string()),
            ("text".to_string(), "line one\nline \"two\"\ttab".to_string()),
            ("name".to_string(), "again".to_string()),
        ],
    }
}

#[test]
fn full_descriptor_matches_its_text() {
    let text = full_text();
    let derivation = parse_derivation(&text).unwrap();
    assert_eq!(derivation.outputs.len(), 2);
    assert_eq!(derivation.input_drvs.len(), 3);
    assert_eq!(derivation.input_srcs.len(), 2);
    assert_eq!(derivation.args.len(), 2);
    assert_eq!(derivation.env.len(), 4);
    assert_eq!(derivation.outputs.get("dev"), Some(&plain_output("/nix/store/d-pkg-dev")));
    assert_eq!(derivation.input_drvs.get("/nix/store/b.drv"), Some(&names(&["dev", "out"])));
    assert_eq!(derivation.input_srcs, vec!["/nix/store/src2", "/nix/store/src1"]);
    assert_eq!(derivation.env[3], ("name".to_string(), "again".to_string()));
    assert_eq!(derivation, full_derivation());
}

#[test]
fn minimal_descriptor() {
    let derivation =
        parse_derivation(r#"Derive([("out","/o","","")],[],[],"s","b",[],[])"#).unwrap();
    assert_eq!(derivation.outputs.len(), 1);
    assert!(derivation.input_drvs.is_empty());
    assert!(derivation.input_srcs.is_empty());
    assert_eq!(derivation.system, "s");
    assert_eq!(derivation.builder, "b");
    assert!(derivation.args.is_empty());
    assert!(derivation.env.is_empty());
}

#[test]
fn derive_expression_returns_what_follows() {
    let mut text = full_text();
    assert_eq!(parse_derive_expression(&text), Ok(("", full_derivation())));
    text.push_str("\nmore");
    assert_eq!(parse_derive_expression(&text), Ok(("\nmore", full_derivation())));
}

#[test]
fn trailing_data_is_rejected() {
    let mut text = full_text();
    text.push('\n');
    assert_eq!(parse_derivation(&text), Err(failure(ErrorKind::TrailingData, "\n")));
    text.push_str("Derive(");
    assert_eq!(parse_derivation(&text), Err(failure(ErrorKind::TrailingData, "\nDerive(")));
}

#[test]
fn truncated_before_final_paren_is_end_of_input() {
    let text = full_text();
    let truncated = &text[..text.len() - 1];
    assert_eq!(parse_derivation(truncated), Err(failure(ErrorKind::UnexpectedEndOfInput, "")));
    assert_eq!(
        parse_derive_expression(truncated),
        Err(failure(ErrorKind::UnexpectedEndOfInput, ""))
    );
}

#[test]
fn every_truncation_fails_at_the_end() {
    let text = full_text();
    for (cut, _) in text.char_indices() {
        let result = parse_derivation(&text[..cut]);
        match result {
            Err(ParseError { kind: ErrorKind::UnexpectedEndOfInput, rest: "" }) => {}
            Err(ParseError { kind: ErrorKind::UnterminatedString, rest: "" }) => {}
            other => panic!("cut at {cut}: {other:?}"),
        }
    }
}

#[test]
fn descriptor_without_outputs_is_rejected() {
    assert_eq!(
        parse_derivation(r#"Derive([],[],[],"s","b",[],[])"#),
        Err(failure(ErrorKind::EmptyRequiredList, r#"],[],[],"s","b",[],[])"#))
    );
}

#[test]
fn descriptor_failures_are_handed_up_unchanged() {
    assert_eq!(parse_derivation(""), Err(failure(ErrorKind::UnexpectedEndOfInput, "")));
    assert_eq!(
        parse_derivation("derive()"),
        Err(unexpected(Token::Derive, "derive()"))
    );
    assert_eq!(
        parse_derivation(r#"Derive([("out","/o","","")],[],[],"s","b",[],[("a","\u{D800}")])"#),
        Err(failure(ErrorKind::InvalidUnicodeScalar, r#"\u{D800}")])"#))
    );
    assert_eq!(
        parse_derivation(r#"Derive([("out","/o","","")],[("/a.drv",[])],[],"s","b",[],[])"#),
        Err(failure(ErrorKind::EmptyRequiredList, r#"])],[],"s","b",[],[])"#))
    );
    assert_eq!(
        parse_derivation(r#"Derive([("out","/o","","")],[],[],"s","b",[]"#),
        Err(failure(ErrorKind::UnexpectedEndOfInput, ""))
    );
    assert_eq!(
        parse_derivation(r#"Derive([("out","/o","","")],[],[],"s","b",[],[]]"#),
        Err(unexpected(Token::TupleClose, "]"))
    );
    assert_eq!(
        parse_derivation(r#"Derive([("out","/o","","")],[],[],"s",[],[])"#),
        Err(unexpected(Token::Quote, "[],[])"))
    );
    assert_eq!(
        parse_derivation(r#"Derive([("out","/o","","")],[],[],"s","b"#),
        Err(failure(ErrorKind::UnterminatedString, ""))
    );
}
