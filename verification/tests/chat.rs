use mivi::chat::{classify_input, parse_slash_command, ChatInput, SlashCommand};

#[test]
fn empty_exit_and_prompt_lines() {
    assert_eq!(classify_input("   \n"), ChatInput::Empty);
    assert_eq!(classify_input(" quit\n"), ChatInput::Exit);
    assert_eq!(classify_input("EXIT"), ChatInput::Exit);
    assert_eq!(classify_input("/Quit"), ChatInput::Exit);
    assert_eq!(classify_input("  hello there \n"), ChatInput::Prompt("hello there".to_string()));
    assert_eq!(classify_input("/unknown thing"), ChatInput::Prompt("/unknown thing".to_string()));
}

#[test]
fn slash_commands_ignore_case_of_the_name() {
    assert_eq!(classify_input("/HELP"), ChatInput::Command(SlashCommand::Help));
    assert_eq!(classify_input("/h"), ChatInput::Command(SlashCommand::Help));
    assert_eq!(classify_input("/Stats"), ChatInput::Command(SlashCommand::Stats));
    assert_eq!(parse_slash_command("/clear"), Some(SlashCommand::Clear));
    assert_eq!(parse_slash_command("/reset now"), Some(SlashCommand::Reset));
    assert_eq!(parse_slash_command("/thinking"), Some(SlashCommand::Thinking));
    assert_eq!(parse_slash_command("/exit"), None);
}

#[test]
fn slash_command_arguments() {
    assert_eq!(
        parse_slash_command("/system  be   brief\tplease"),
        Some(SlashCommand::System(Some("be brief please".to_string())))
    );
    assert_eq!(parse_slash_command("/system"), Some(SlashCommand::System(None)));
    assert_eq!(parse_slash_command("/temp 0.7"), Some(SlashCommand::Temp(Some("0.7".to_string()))));
    assert_eq!(parse_slash_command("/min-p"), Some(SlashCommand::MinP(None)));
    assert_eq!(parse_slash_command("/top-p 0.9 extra"), Some(SlashCommand::TopP(Some("0.9".to_string()))));
    assert_eq!(parse_slash_command("/rep 1.1"), Some(SlashCommand::Rep(Some("1.1".to_string()))));
    assert_eq!(parse_slash_command("/top-k 40"), Some(SlashCommand::TopK(Some(Some(40)))));
    assert_eq!(parse_slash_command("/top-k +7"), Some(SlashCommand::TopK(Some(Some(7)))));
    assert_eq!(parse_slash_command("/top-k forty"), Some(SlashCommand::TopK(Some(None))));
    assert_eq!(parse_slash_command("/top-k -1"), Some(SlashCommand::TopK(Some(None))));
    assert_eq!(parse_slash_command("/top-k"), Some(SlashCommand::TopK(None)));
}
