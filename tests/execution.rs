use std::collections::HashMap;

use hrm_interpreter::interpreter::memory::Memory;
use hrm_interpreter::interpreter::{
    ExecuteInstructionError, ExecuteScriptError, InstructionResult, Interpreter,
};
use hrm_interpreter::script_object::instruction::Instruction;
use hrm_interpreter::script_object::value_box::{ValueBox, ValueBoxMemoryAddress};
use hrm_interpreter::script_object::{Block, ScriptObject};

fn direct(a: usize) -> ValueBoxMemoryAddress {
    ValueBoxMemoryAddress::Pointer(a)
}

fn numbers(values: &[i32]) -> Vec<ValueBox> {
    values.iter().map(|v| ValueBox::from(*v)).collect()
}

fn pairwise_sum_script() -> ScriptObject {
    ScriptObject::new(vec![
        Block::new("entry".to_string(), 0, vec![]),
        Block::new(
            "loop".to_string(),
            1,
            vec![
                Instruction::In,
                Instruction::CopyTo(direct(0)),
                Instruction::In,
                Instruction::Add(direct(0)),
                Instruction::Out,
                Instruction::Jump("loop".to_string()),
            ],
        ),
    ])
}

#[test]
fn pairwise_sums_stop_when_inputs_run_out() {
    let mut interpreter = Interpreter::new(Memory::default());
    let outputs = interpreter
        .execute(&pairwise_sum_script(), &numbers(&[3, 4, 5, 6]))
        .unwrap();
    assert_eq!(outputs, numbers(&[7, 11]));
}

#[test]
fn odd_input_count_leaves_last_value_unconsumed() {
    let mut interpreter = Interpreter::new(Memory::default());
    let outputs = interpreter
        .execute(&pairwise_sum_script(), &numbers(&[3, 4, 5]))
        .unwrap();
    assert_eq!(outputs, numbers(&[7]));
    assert_eq!(interpreter.next_input, 3);
    assert_eq!(interpreter.head, Some(ValueBox::from(5)));
}

#[test]
fn in_reads_two_inputs_then_terminates_without_changing_head() {
    let inputs = numbers(&[10, 20]);
    let mut interpreter = Interpreter::new(Memory::default());
    let mut outputs = vec![];
    assert_eq!(
        interpreter
            .execute_instruction(&Instruction::In, &inputs, &mut outputs)
            .unwrap(),
        InstructionResult::NextInstruction
    );
    assert_eq!(interpreter.head, Some(ValueBox::from(10)));
    assert_eq!(
        interpreter
            .execute_instruction(&Instruction::In, &inputs, &mut outputs)
            .unwrap(),
        InstructionResult::NextInstruction
    );
    assert_eq!(interpreter.head, Some(ValueBox::from(20)));
    assert_eq!(
        interpreter
            .execute_instruction(&Instruction::In, &inputs, &mut outputs)
            .unwrap(),
        InstructionResult::Terminate
    );
    assert_eq!(interpreter.head, Some(ValueBox::from(20)));
    assert_eq!(interpreter.next_input, 2);
}

#[test]
fn jump_to_missing_label_is_an_invalid_jump() {
    let script = ScriptObject::new(vec![Block::new(
        "entry".to_string(),
        0,
        vec![Instruction::Jump("missing".to_string())],
    )]);
    assert!(script.validate().is_err());
    let mut interpreter = Interpreter::new(Memory::default());
    match interpreter.execute(&script, &[]) {
        Err(ExecuteScriptError::InvalidJumpError(_, label)) => assert_eq!(label, "missing"),
        Ok(_) => panic!("expected an invalid jump"),
        Err(_) => panic!("expected an invalid jump"),
    }
}

#[test]
fn unreachable_missing_label_fails_validation_only() {
    let script = ScriptObject::new(vec![
        Block::new("entry".to_string(), 0, vec![Instruction::In]),
        Block::new(
            "dead".to_string(),
            1,
            vec![Instruction::Jump("missing".to_string())],
        ),
    ]);
    assert!(script.validate().is_err());
    let mut interpreter = Interpreter::new(Memory::default());
    assert_eq!(interpreter.execute(&script, &[]).unwrap(), vec![]);
}

#[test]
fn bump_up_then_down_restores_value() {
    let mut interpreter = Interpreter::new(Memory::with_data(
        HashMap::from_iter([(2, ValueBox::from(5))]),
        4,
    ));
    interpreter
        .execute_instruction(&Instruction::BumpUp(direct(2)), &[], &mut vec![])
        .unwrap();
    assert_eq!(interpreter.memory.get(&2), Some(&ValueBox::from(6)));
    assert_eq!(interpreter.head, Some(ValueBox::from(6)));
    interpreter
        .execute_instruction(&Instruction::BumpDown(direct(2)), &[], &mut vec![])
        .unwrap();
    assert_eq!(interpreter.memory.get(&2), Some(&ValueBox::from(5)));
    assert_eq!(interpreter.head, Some(ValueBox::from(5)));
}

#[test]
fn failure_snapshot_holds_pending_inputs_outputs_and_memory() {
    let script = ScriptObject::new(vec![Block::new(
        "entry".to_string(),
        0,
        vec![
            Instruction::In,
            Instruction::Out,
            Instruction::CopyTo(direct(1)),
            Instruction::In,
            Instruction::Add(direct(1)),
        ],
    )]);
    let inputs = vec![ValueBox::from(4), ValueBox::from('C'), ValueBox::from(9)];
    let mut interpreter = Interpreter::new(Memory::with_data(HashMap::new(), 3));
    match interpreter.execute(&script, &inputs) {
        Err(ExecuteScriptError::ExecuteInstructionError(info, error)) => {
            assert!(matches!(
                error,
                ExecuteInstructionError::AddCharacterAndNumber { address: 1, .. }
            ));
            assert_eq!(info.inputs_left(), &vec![ValueBox::from(9)]);
            assert_eq!(info.outputs(), &vec![ValueBox::from(4)]);
            assert_eq!(info.memory().get(&1), Some(&ValueBox::from(4)));
            assert_eq!(info.memory().get_max_address(), 3);
        }
        Ok(_) => panic!("expected a failure"),
        Err(_) => panic!("expected an instruction failure"),
    }
}

#[test]
fn blocks_fall_through_in_order_and_end_after_the_last() {
    let script = ScriptObject::new(vec![
        Block::new("entry".to_string(), 0, vec![Instruction::In]),
        Block::new("a".to_string(), 1, vec![]),
        Block::new("b".to_string(), 2, vec![Instruction::Out]),
    ]);
    let mut interpreter = Interpreter::new(Memory::default());
    assert_eq!(
        interpreter.execute(&script, &[ValueBox::from('X')]).unwrap(),
        vec![ValueBox::from('X')]
    );
}

#[test]
fn countdown_uses_conditional_jumps() {
    // Outputs n, n-1, ..., 1 for each input n, using tile 0 as the counter.
    let script = ScriptObject::new(vec![
        Block::new("entry".to_string(), 0, vec![]),
        Block::new(
            "read".to_string(),
            1,
            vec![Instruction::In, Instruction::CopyTo(direct(0))],
        ),
        Block::new(
            "emit".to_string(),
            2,
            vec![
                Instruction::JumpIfZero("read".to_string()),
                Instruction::Out,
                Instruction::BumpDown(direct(0)),
                Instruction::Jump("emit".to_string()),
            ],
        ),
    ]);
    let mut interpreter = Interpreter::new(Memory::with_data(HashMap::new(), 0));
    assert_eq!(
        interpreter.execute(&script, &numbers(&[3, 0, 1])).unwrap(),
        numbers(&[3, 2, 1, 1])
    );
}

#[test]
fn block_limit_stops_an_endless_loop() {
    let script = ScriptObject::new(vec![Block::new(
        "entry".to_string(),
        0,
        vec![Instruction::Jump("entry".to_string())],
    )]);
    let mut interpreter = Interpreter::new(Memory::default());
    match interpreter.execute_with_block_limit(&script, &[ValueBox::from(1)], 5) {
        Err(ExecuteScriptError::BlockLimitReached(info)) => {
            assert_eq!(info.inputs_left(), &vec![ValueBox::from(1)]);
            assert!(info.outputs().is_empty());
        }
        Ok(_) => panic!("expected the limit to be reached"),
        Err(_) => panic!("expected the limit to be reached"),
    }
}

#[test]
fn script_lookups() {
    let script = pairwise_sum_script();
    assert_eq!(script.get_block_by_index(1).unwrap().name, "loop");
    assert!(script.get_block_by_index(2).is_none());
    assert_eq!(script.position_of_label("loop"), Some(1));
    assert_eq!(script.position_of_label("nope"), None);
    let entry = script.get_block_by_label("entry").unwrap();
    assert_eq!(script.get_next(entry).unwrap().index, 1);
    assert!(script.validate().is_ok());
    assert!(script.all_jumps_have_valid_anchors());
}
