use irnix::contract_tokens::ContractTokens;

#[test]
fn tokeniser() {
    let mut lex = ContractTokens::lexer("#>>> method_name: stdin! -> (arg?, arg!, aboba!, --flag!, --flag2?) -> stdout?[2, 42, 50]");

    assert_eq!(lex.next(), Some(Ok(ContractTokens::Start)));
    assert_eq!(lex.slice(), "#>>>");

    assert_eq!(lex.next(), Some(Ok(ContractTokens::Name)));
    assert_eq!(lex.slice(), "method_name:");

    assert_eq!(lex.next(), Some(Ok(ContractTokens::Stdin)));
    assert_eq!(lex.slice(), "stdin!");

    assert_eq!(lex.next(), Some(Ok(ContractTokens::Arrow)));
    assert_eq!(lex.slice(), "->");

    assert_eq!(lex.next(), Some(Ok(ContractTokens::LP)));
    assert_eq!(lex.slice(), "(");

    assert_eq!(lex.next(), Some(Ok(ContractTokens::Arg)));
    assert_eq!(lex.slice(), "arg?");

    assert_eq!(lex.next(), Some(Ok(ContractTokens::Comma)));
    assert_eq!(lex.slice(), ",");

    assert_eq!(lex.next(), Some(Ok(ContractTokens::Arg)));
    assert_eq!(lex.slice(), "arg!");

    assert_eq!(lex.next(), Some(Ok(ContractTokens::Comma)));
    assert_eq!(lex.slice(), ",");

    assert_eq!(lex.next(), Some(Ok(ContractTokens::Arg)));
    assert_eq!(lex.slice(), "aboba!");

    assert_eq!(lex.next(), Some(Ok(ContractTokens::Comma)));
    assert_eq!(lex.slice(), ",");

    assert_eq!(lex.next(), Some(Ok(ContractTokens::Flag)));
    assert_eq!(lex.slice(), "--flag!");

    assert_eq!(lex.next(), Some(Ok(ContractTokens::Comma)));
    assert_eq!(lex.slice(), ",");

    assert_eq!(lex.next(), Some(Ok(ContractTokens::Flag)));
    assert_eq!(lex.slice(), "--flag2?");

    assert_eq!(lex.next(), Some(Ok(ContractTokens::RP)));
    assert_eq!(lex.slice(), ")");

    assert_eq!(lex.next(), Some(Ok(ContractTokens::Arrow)));
    assert_eq!(lex.slice(), "->");

    assert_eq!(lex.next(), Some(Ok(ContractTokens::Stdout)));
    assert_eq!(lex.slice(), "stdout?");

    assert_eq!(lex.next(), Some(Ok(ContractTokens::LSB)));
    assert_eq!(lex.slice(), "[");

    assert_eq!(lex.next(), Some(Ok(ContractTokens::Number)));
    assert_eq!(lex.slice(), "2");

    assert_eq!(lex.next(), Some(Ok(ContractTokens::Comma)));
    assert_eq!(lex.slice(), ",");

    assert_eq!(lex.next(), Some(Ok(ContractTokens::Number)));
    assert_eq!(lex.slice(), "42");

    assert_eq!(lex.next(), Some(Ok(ContractTokens::Comma)));
    assert_eq!(lex.slice(), ",");

    assert_eq!(lex.next(), Some(Ok(ContractTokens::Number)));
    assert_eq!(lex.slice(), "50");

    assert_eq!(lex.next(), Some(Ok(ContractTokens::RSB)));
    assert_eq!(lex.slice(), "]");

    let mut lex = ContractTokens::lexer("#>>> stdin! arg? arg! aboba! --flag! --flag2? stdout?[2, 42, 50]");

    assert_eq!(lex.next(), Some(Ok(ContractTokens::Start)));
    assert_eq!(lex.slice(), "#>>>");

    assert_eq!(lex.next(), Some(Ok(ContractTokens::Stdin)));
    assert_eq!(lex.slice(), "stdin!");

    assert_eq!(lex.next(), Some(Ok(ContractTokens::Arg)));
    assert_eq!(lex.slice(), "arg?");

    assert_eq!(lex.next(), Some(Ok(ContractTokens::Arg)));
    assert_eq!(lex.slice(), "arg!");

    assert_eq!(lex.next(), Some(Ok(ContractTokens::Arg)));
    assert_eq!(lex.slice(), "aboba!");

    assert_eq!(lex.next(), Some(Ok(ContractTokens::Flag)));
    assert_eq!(lex.slice(), "--flag!");

    assert_eq!(lex.next(), Some(Ok(ContractTokens::Flag)));
    assert_eq!(lex.slice(), "--flag2?");

    assert_eq!(lex.next(), Some(Ok(ContractTokens::Stdout)));
    assert_eq!(lex.slice(), "stdout?");

    assert_eq!(lex.next(), Some(Ok(ContractTokens::LSB)));
    assert_eq!(lex.slice(), "[");

    assert_eq!(lex.next(), Some(Ok(ContractTokens::Number)));
    assert_eq!(lex.slice(), "2");

    assert_eq!(lex.next(), Some(Ok(ContractTokens::Comma)));
    assert_eq!(lex.slice(), ",");

    assert_eq!(lex.next(), Some(Ok(ContractTokens::Number)));
    assert_eq!(lex.slice(), "42");

    assert_eq!(lex.next(), Some(Ok(ContractTokens::Comma)));
    assert_eq!(lex.slice(), ",");

    assert_eq!(lex.next(), Some(Ok(ContractTokens::Number)));
    assert_eq!(lex.slice(), "50");

    assert_eq!(lex.next(), Some(Ok(ContractTokens::RSB)));
    assert_eq!(lex.slice(), "]");

    let mut lex = ContractTokens::lexer("#>>> stdin! -> arg? arg! aboba! --flag! --flag2? -> stdout? 2, 42, 50");

    assert_eq!(lex.next(), Some(Ok(ContractTokens::Start)));
    assert_eq!(lex.slice(), "#>>>");

    assert_eq!(lex.next(), Some(Ok(ContractTokens::Stdin)));
    assert_eq!(lex.slice(), "stdin!");

    assert_eq!(lex.next(), Some(Ok(ContractTokens::Arrow)));
    assert_eq!(lex.slice(), "->");

    assert_eq!(lex.next(), Some(Ok(ContractTokens::Arg)));
    assert_eq!(lex.slice(), "arg?");

    assert_eq!(lex.next(), Some(Ok(ContractTokens::Arg)));
    assert_eq!(lex.slice(), "arg!");

    assert_eq!(lex.next(), Some(Ok(ContractTokens::Arg)));
    assert_eq!(lex.slice(), "aboba!");

    assert_eq!(lex.next(), Some(Ok(ContractTokens::Flag)));
    assert_eq!(lex.slice(), "--flag!");

    assert_eq!(lex.next(), Some(Ok(ContractTokens::Flag)));
    assert_eq!(lex.slice(), "--flag2?");

    assert_eq!(lex.next(), Some(Ok(ContractTokens::Arrow)));
    assert_eq!(lex.slice(), "->");

    assert_eq!(lex.next(), Some(Ok(ContractTokens::Stdout)));
    assert_eq!(lex.slice(), "stdout?");

    assert_eq!(lex.next(), Some(Ok(ContractTokens::Number)));
    assert_eq!(lex.slice(), "2");

    assert_eq!(lex.next(), Some(Ok(ContractTokens::Comma)));
    assert_eq!(lex.slice(), ",");

    assert_eq!(lex.next(), Some(Ok(ContractTokens::Number)));
    assert_eq!(lex.slice(), "42");

    assert_eq!(lex.next(), Some(Ok(ContractTokens::Comma)));
    assert_eq!(lex.slice(), ",");

    assert_eq!(lex.next(), Some(Ok(ContractTokens::Number)));
    assert_eq!(lex.slice(), "50");

    let mut lex = ContractTokens::lexer("#>>> arg? arg! aboba! -s! -b?");

    assert_eq!(lex.next(), Some(Ok(ContractTokens::Start)));
    assert_eq!(lex.slice(), "#>>>");

    assert_eq!(lex.next(), Some(Ok(ContractTokens::Arg)));
    assert_eq!(lex.slice(), "arg?");

    assert_eq!(lex.next(), Some(Ok(ContractTokens::Arg)));
    assert_eq!(lex.slice(), "arg!");

    assert_eq!(lex.next(), Some(Ok(ContractTokens::Arg)));
    assert_eq!(lex.slice(), "aboba!");

    assert_eq!(lex.next(), Some(Ok(ContractTokens::Flag)));
    assert_eq!(lex.slice(), "-s!");

    assert_eq!(lex.next(), Some(Ok(ContractTokens::Flag)));
    assert_eq!(lex.slice(), "-b?");

    let mut lex = ContractTokens::lexer("-s=! -b=? --flag=! --flag=?");

    assert_eq!(lex.next(), Some(Ok(ContractTokens::Flag)));
    assert_eq!(lex.slice(), "-s=!");

    assert_eq!(lex.next(), Some(Ok(ContractTokens::Flag)));
    assert_eq!(lex.slice(), "-b=?");

    assert_eq!(lex.next(), Some(Ok(ContractTokens::Flag)));
    assert_eq!(lex.slice(), "--flag=!");

    assert_eq!(lex.next(), Some(Ok(ContractTokens::Flag)));
    assert_eq!(lex.slice(), "--flag=?");
}

#[test]
fn longest_token_is_taken() {
    let mut lex = ContractTokens::lexer("stdin: stdinx! 12! 12: 12 12ab");
    assert_eq!(lex.next(), Some(Ok(ContractTokens::Name)));
    assert_eq!(lex.slice(), "stdin:");
    assert_eq!(lex.next(), Some(Ok(ContractTokens::Arg)));
    assert_eq!(lex.slice(), "stdinx!");
    assert_eq!(lex.next(), Some(Ok(ContractTokens::Arg)));
    assert_eq!(lex.slice(), "12!");
    assert_eq!(lex.next(), Some(Ok(ContractTokens::Name)));
    assert_eq!(lex.slice(), "12:");
    assert_eq!(lex.next(), Some(Ok(ContractTokens::Number)));
    assert_eq!(lex.slice(), "12");
    assert_eq!(lex.next(), Some(Ok(ContractTokens::Number)));
    assert_eq!(lex.slice(), "12");
    assert_eq!(lex.next(), Some(Err(())));
    assert_eq!(lex.slice(), "ab");
    assert_eq!(lex.next(), None);
    assert_eq!(lex.slice(), "");
}

#[test]
fn keywords_are_told_from_arguments() {
    let mut lex = ContractTokens::lexer("stdin!stdout?stdin_!Stdin? stdout:");
    assert_eq!(lex.next(), Some(Ok(ContractTokens::Stdin)));
    assert_eq!(lex.next(), Some(Ok(ContractTokens::Stdout)));
    assert_eq!(lex.next(), Some(Ok(ContractTokens::Arg)));
    assert_eq!(lex.slice(), "stdin_!");
    assert_eq!(lex.next(), Some(Ok(ContractTokens::Arg)));
    assert_eq!(lex.slice(), "Stdin?");
    assert_eq!(lex.next(), Some(Ok(ContractTokens::Name)));
    assert_eq!(lex.next(), None);
}

#[test]
fn unrecognized_text_ends_the_lexing() {
    for line in
        ["#>>", "-", "--", "--1!", "-a", "-a=", "-a=b!", "---a!", "arg", "=", "!", "a!:", "\u{2192}"]
    {
        let mut lex = ContractTokens::lexer(line);
        let mut last = lex.next();
        while let Some(Ok(_)) = last {
            last = lex.next();
        }
        assert_eq!(last, Some(Err(())), "{}", line);
        assert_eq!(lex.next(), None, "{}", line);
    }
    let mut lex = ContractTokens::lexer("  a! %b! c!");
    assert_eq!(lex.next(), Some(Ok(ContractTokens::Arg)));
    assert_eq!(lex.next(), Some(Err(())));
    assert_eq!(lex.slice(), "%b! c!");
    assert_eq!(lex.next(), None);
}

#[test]
fn blanks_part_tokens() {
    let mut lex = ContractTokens::lexer(" \t\r\n\u{c}a!\t(\n");
    assert_eq!(lex.next(), Some(Ok(ContractTokens::Arg)));
    assert_eq!(lex.slice(), "a!");
    assert_eq!(lex.next(), Some(Ok(ContractTokens::LP)));
    assert_eq!(lex.next(), None);
    let mut lex = ContractTokens::lexer("a!\u{b}b!");
    assert_eq!(lex.next(), Some(Ok(ContractTokens::Arg)));
    assert_eq!(lex.next(), Some(Err(())));
    let mut lex = ContractTokens::lexer("");
    assert_eq!(lex.next(), None);
}

#[test]
fn words_may_be_written_in_any_script() {
    let mut lex = ContractTokens::lexer("имя: арг! --f\u{e9}e=? caf\u{e9}_1? \u{663}");
    assert_eq!(lex.next(), Some(Ok(ContractTokens::Name)));
    assert_eq!(lex.slice(), "имя:");
    assert_eq!(lex.next(), Some(Ok(ContractTokens::Arg)));
    assert_eq!(lex.slice(), "арг!");
    assert_eq!(lex.next(), Some(Ok(ContractTokens::Flag)));
    assert_eq!(lex.slice(), "--f\u{e9}e=?");
    assert_eq!(lex.next(), Some(Ok(ContractTokens::Arg)));
    assert_eq!(lex.slice(), "caf\u{e9}_1?");
    assert_eq!(lex.next(), Some(Err(())));
    let mut lex = ContractTokens::lexer("--\u{e9}!");
    assert_eq!(lex.next(), Some(Err(())));
    let mut lex = ContractTokens::lexer("a\u{d7}b!");
    assert_eq!(lex.next(), Some(Err(())));
}
