use hrm_interpreter::interpreter::memory::Memory;
use hrm_interpreter::interpreter::Interpreter;
use hrm_interpreter::script_object::instruction::{Instruction, ParseInstructionError};
use hrm_interpreter::script_object::value_box;
use hrm_interpreter::script_object::value_box::ValueBox;
use hrm_interpreter::script_object::{Block, ParseScriptObjectError, ScriptObject};

#[test]
fn test_simple_script() {
    let script = "-- HUMAN RESOURCE MACHINE PROGRAM --

        a:
            INBOX   
            COPYTO   0
            INBOX   
            ADD      0
            OUTBOX  
            JUMP     a
        
        
        ";
    let script_object = ScriptObject::from_str(script).unwrap();

    let theorical_so = ScriptObject::new(vec![
        Block {
            name: "entry".to_string(),
            index: 0,
            instructions: vec![],
        },
        Block {
            name: "a".to_string(),
            index: 1,
            instructions: vec![
                Instruction::In,
                Instruction::CopyTo(value_box::ValueBoxMemoryAddress::Pointer(0)),
                Instruction::In,
                Instruction::Add(value_box::ValueBoxMemoryAddress::Pointer(0)),
                Instruction::Out,
                Instruction::Jump("a".to_string()),
            ],
        },
    ]);
    assert_eq!(script_object, theorical_so);
}

#[test]
fn test_script_valid_anchors() {
    let script = "-- HUMAN RESOURCE MACHINE PROGRAM --

        a:
            JUMP     a
        b:
            JUMPZ    b
            JUMP     a
        c:
            JUMPN    b
        
        ";
    let script_object = ScriptObject::from_str(script).unwrap();

    assert!(script_object.all_jumps_have_valid_anchors());
}

#[test]
fn test_script_invalid_anchors() {
    let script = "-- HUMAN RESOURCE MACHINE PROGRAM --

        a:
            JUMP     b
        b:
            JUMPZ    z
            JUMP     a
        c:
            JUMPN    b
        
        ";
    let script_object = ScriptObject::from_str(script).unwrap();

    assert!(!script_object.all_jumps_have_valid_anchors());
}

#[test]
fn test_script_empty_block() {
    let script = "-- HUMAN RESOURCE MACHINE PROGRAM --

        a:
        b:
            JUMPZ    b
            JUMP     a
        c:
            JUMPN    b
        
        ";
    let script_object = ScriptObject::from_str(script).unwrap();

    assert!(script_object.get_block_by_label("a").is_some());
    assert!(script_object
        .get_block_by_label("a")
        .unwrap()
        .instructions
        .is_empty());
}

#[test]
fn test_script_get_next() {
    let script = "-- HUMAN RESOURCE MACHINE PROGRAM --

        a:
        b:
            COPYTO   0
            JUMP     a
        c:
            JUMPN    b
        
        ";
    let script_object = ScriptObject::from_str(script).unwrap();

    assert_eq!(
        script_object.get_next(script_object.get_block_by_label("a").unwrap()),
        Some(script_object.get_block_by_label("b").unwrap())
    );
    assert_eq!(
        script_object.get_next(script_object.get_block_by_label("b").unwrap()),
        Some(script_object.get_block_by_label("c").unwrap())
    );
    assert_eq!(
        script_object.get_next(script_object.get_block_by_label("c").unwrap()),
        None
    );
}

#[test]
fn comments_and_definitions_are_skipped() {
    let script = "-- HUMAN RESOURCE MACHINE PROGRAM --\r\n\
        INBOX\r\n\
        COMMENT  0\r\n\
        OUTBOX\r\n\
        \r\n\
        DEFINE LABEL 0\r\n\
        eJzzYmBgWMWwG:\r\n";
    let script_object = ScriptObject::from_str(script).unwrap();
    assert_eq!(
        script_object,
        ScriptObject::new(vec![Block::new(
            "entry".to_string(),
            0,
            vec![Instruction::In, Instruction::Out]
        )])
    );
}

#[test]
fn label_is_text_before_first_colon() {
    let script_object = ScriptObject::from_str("x:y:\n  INBOX").unwrap();
    let block = script_object.get_block_by_index(1).unwrap();
    assert_eq!(block.name, "x");
    assert_eq!(block.instructions, vec![Instruction::In]);
}

#[test]
fn invalid_instruction_reports_its_line() {
    match ScriptObject::from_str("-- title --\n\n  INBOX\n   FLY   away \nGARBAGE\n") {
        Err(ParseScriptObjectError::InvalidInstruction {
            line,
            instruction,
            error,
        }) => {
            assert_eq!(line, 4);
            assert_eq!(instruction, "FLY   away");
            assert!(matches!(error, ParseInstructionError::InvalidInstruction(_)));
        }
        other => panic!("unexpected {:?}", other),
    }
}

#[test]
fn empty_text_is_an_empty_entry_block() {
    let script_object = ScriptObject::from_str("").unwrap();
    assert_eq!(
        script_object,
        ScriptObject::new(vec![Block::new("entry".to_string(), 0, vec![])])
    );
}

#[test]
fn parsed_pairwise_sum_script_runs() {
    let script = "-- HUMAN RESOURCE MACHINE PROGRAM --\n\
        loop:\n\
            INBOX\n\
            COPYTO 0\n\
            INBOX\n\
            ADD 0\n\
            OUTBOX\n\
            JUMP loop\n";
    let script_object = ScriptObject::from_str(script).unwrap();
    script_object.validate().unwrap();
    let inputs: Vec<ValueBox> = [3, 4, 5, 6].iter().map(|v| ValueBox::from(*v)).collect();
    let mut interpreter = Interpreter::new(Memory::default());
    assert_eq!(
        interpreter.execute(&script_object, &inputs).unwrap(),
        vec![ValueBox::from(7), ValueBox::from(11)]
    );
}
