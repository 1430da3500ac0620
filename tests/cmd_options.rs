use ryol::cmd_options::{CmdOptions, CodeSource};

#[test]
fn basic_input_sources_tests() {
    let input_path = "asdf".to_string();
    let code = "(+ 1 1)".to_string();

    // file
    assert_eq!(
        CmdOptions::parse(vec!["-i".to_string(), input_path.clone()]).unwrap(),
        CmdOptions {
            code_sources: vec![CodeSource::File(input_path.clone())],
            print_res: false
        }
    );

    // string
    assert_eq!(
        CmdOptions::parse(vec!["-e".to_string(), code.to_string()]).unwrap(),
        CmdOptions {
            code_sources: vec![CodeSource::String(code.clone())],
            print_res: false
        }
    );

    // file, string
    assert_eq!(
        CmdOptions::parse(vec![
            "-i".to_string(),
            input_path.clone(),
            "-e".to_string(),
            code.to_string()
        ])
        .unwrap(),
        CmdOptions {
            code_sources: vec![
                CodeSource::File(input_path.clone()),
                CodeSource::String(code.clone())
            ],
            print_res: false
        }
    );

    // string, file
    assert_eq!(
        CmdOptions::parse(vec![
            "-e".to_string(),
            code.to_string(),
            "-i".to_string(),
            input_path.clone(),
        ])
        .unwrap(),
        CmdOptions {
            code_sources: vec![
                CodeSource::String(code.clone()),
                CodeSource::File(input_path.clone()),
            ],
            print_res: false
        }
    );
}

#[test]
fn flag_tests() {
    assert_eq!(
        CmdOptions::parse(vec!["-p".to_string()]).unwrap(),
        CmdOptions {
            code_sources: Vec::new(),
            print_res: true
        }
    );
}

#[test]
fn long_flags_and_bare_file_names() {
    let options = CmdOptions::parse(vec![
        "--file".to_string(),
        "a.ryol".to_string(),
        "b.ryol".to_string(),
        "--eval".to_string(),
        "(+ 1 2)".to_string(),
        "--print-res".to_string(),
    ])
    .unwrap();
    assert_eq!(
        options,
        CmdOptions {
            code_sources: vec![
                CodeSource::File("a.ryol".to_string()),
                CodeSource::File("b.ryol".to_string()),
                CodeSource::String("(+ 1 2)".to_string()),
            ],
            print_res: true
        }
    );
    assert!(options.should_print_res());
}

#[test]
fn trailing_option_without_value_is_ignored() {
    assert_eq!(
        CmdOptions::parse(vec!["-e".to_string()]).unwrap(),
        CmdOptions {
            code_sources: Vec::new(),
            print_res: false
        }
    );
}
