use vstd::prelude::*;
use vstd::string::*;
use crate::error::EzasmError;
use crate::parser::lexer::{spec_tokenize_line, tokenize_line, views};

verus! {

/// One decoded line of a program.
#[derive(Debug, PartialEq, Eq)]
pub enum Line {
    /// A mnemonic and its operand tokens, in order.
    Instruction(String, Vec<String>),
    /// The definition of a label, by its name.
    Label(String),
}

/// What a first token and the tokens after it form.
pub enum LineForm {
    /// A name of at least one character, a colon, and nothing after it.
    Label,
    /// A first token that is not empty and does not end in a colon.
    Instruction,
    /// Anything else: no first token, a colon alone, or a label followed
    /// by tokens.
    Malformed,
}

/// The form of a line with the first token `head` and `count` tokens
/// after it.
pub open spec fn line_form(head: Seq<char>, count: int) -> LineForm {
    if head.len() >= 2 && head.last() == ':' && count == 0 {
        LineForm::Label
    } else if head.len() == 0 || head.last() == ':' {
        LineForm::Malformed
    } else {
        LineForm::Instruction
    }
}

impl Line {
    /// Decodes a line from its first token and the tokens after it.
    pub fn new(instruction: &String, arguments: Vec<String>) -> (made: Result<Line, EzasmError>)
        ensures
            match line_form(instruction@, arguments@.len() as int) {
                LineForm::Label => made matches Ok(Line::Label(name)) && name@
                    == instruction@.drop_last(),
                LineForm::Instruction => made == Ok::<Line, EzasmError>(
                    Line::Instruction(*instruction, arguments),
                ),
                LineForm::Malformed => made == Err::<Line, EzasmError>(
                    EzasmError::UnknownInstruction(*instruction),
                ),
            },
    {
        let text = instruction.as_str();
        let length = text.unicode_len();
        if length == 0 {
            return Err(EzasmError::UnknownInstruction(instruction.clone()));
        }
        if text.get_char(length - 1) == ':' {
            if length >= 2 && arguments.len() == 0 {
                let name = text.substring_char(0, length - 1).to_owned();
                assert(name@ =~= instruction@.drop_last());
                Ok(Line::Label(name))
            } else {
                Err(EzasmError::UnknownInstruction(instruction.clone()))
            }
        } else {
            Ok(Line::Instruction(instruction.clone(), arguments))
        }
    }

    /// Decodes a line of text. A line without tokens, blank or all
    /// comment, is no line at all.
    pub fn parse(text: &String) -> (made: Result<Option<Line>, EzasmError>)
        ensures
            spec_tokenize_line(text@).len() == 0 ==> made == Ok::<Option<Line>, EzasmError>(None),
            spec_tokenize_line(text@).len() > 0 ==> {
                let tokens = spec_tokenize_line(text@);
                match line_form(tokens[0], tokens.len() - 1) {
                    LineForm::Label => made matches Ok(Some(Line::Label(name))) && name@
                        == tokens[0].drop_last(),
                    LineForm::Instruction => made matches Ok(
                        Some(Line::Instruction(mnemonic, arguments)),
                    ) && mnemonic@ == tokens[0] && views(arguments@) == tokens.drop_first(),
                    LineForm::Malformed => made matches Err(
                        EzasmError::UnknownInstruction(name),
                    ) && name@ == tokens[0],
                }
            },
    {
        let mut tokens = tokenize_line(text);
        let ghost all = tokens@;
        if tokens.len() == 0 {
            return Ok(None);
        }
        let head = tokens.remove(0);
        assert(views(tokens@) =~= views(all).drop_first());
        assert(views(all)[0] == head@);
        match Line::new(&head, tokens) {
            Ok(line) => Ok(Some(line)),
            Err(error) => Err(error),
        }
    }
}

} // verus!
