use std::collections::HashMap;

use hrm_interpreter::interpreter::memory::Memory;
use hrm_interpreter::interpreter::{ExecuteInstructionError, InstructionResult, Interpreter};
use hrm_interpreter::script_object::instruction::Instruction;
use hrm_interpreter::script_object::value_box::{ValueBox, ValueBoxMemoryAddress};

#[test]
fn test_inbox() {
    let mut interpreter = Interpreter {
        memory: Memory::default(),
        head: None,
        next_input: 0,
    };

    let result = interpreter.execute_instruction(&Instruction::In, &[], &mut vec![]);
    assert_eq!(result.unwrap(), InstructionResult::Terminate);

    let result =
        interpreter.execute_instruction(&Instruction::In, &[ValueBox::from(10)], &mut vec![]);
    assert_eq!(result.unwrap(), InstructionResult::NextInstruction);
    assert_eq!(interpreter.head, Some(ValueBox::from(10)));
}

#[test]
fn test_outbox() {
    let mut interpreter = Interpreter {
        memory: Memory::default(),
        head: Some(ValueBox::from(42)),
        next_input: 0,
    };

    let mut outputs = vec![];
    let result = interpreter.execute_instruction(&Instruction::Out, &[], &mut outputs);
    assert_eq!(result.unwrap(), InstructionResult::NextInstruction);
    assert_eq!(outputs, vec![ValueBox::from(42)]);
}

#[test]
fn test_copy_from() {
    let mut interpreter = Interpreter {
        memory: Memory::with_data(HashMap::from_iter([(0, ValueBox::from(42))]), 10),
        head: None,
        next_input: 0,
    };

    let result = interpreter.execute_instruction(
        &Instruction::CopyFrom(ValueBoxMemoryAddress::Pointer(0)),
        &[],
        &mut vec![],
    );
    assert_eq!(result.unwrap(), InstructionResult::NextInstruction);
    assert_eq!(interpreter.head, Some(ValueBox::from(42)));
}

#[test]
fn test_copy_to() {
    let mut interpreter = Interpreter {
        memory: Memory::with_data(HashMap::from_iter([(0, ValueBox::from(42))]), 10),
        head: Some(ValueBox::from(10)),
        next_input: 0,
    };

    let result = interpreter.execute_instruction(
        &Instruction::CopyTo(ValueBoxMemoryAddress::Pointer(0)),
        &[],
        &mut vec![],
    );
    assert_eq!(result.unwrap(), InstructionResult::NextInstruction);
    assert_eq!(interpreter.memory.get(&0), Some(&ValueBox::from(10)));
}

#[test]
fn test_add() {
    let mut interpreter = Interpreter {
        memory: Memory::with_data(HashMap::from_iter([(0, ValueBox::from(42))]), 10),
        head: Some(ValueBox::from(10)),
        next_input: 0,
    };

    let result = interpreter.execute_instruction(
        &Instruction::Add(ValueBoxMemoryAddress::Pointer(0)),
        &[],
        &mut vec![],
    );
    assert_eq!(result.unwrap(), InstructionResult::NextInstruction);
    assert_eq!(interpreter.head, Some(ValueBox::from(52)));
    assert_eq!(interpreter.memory.get(&0), Some(&ValueBox::from(42)));
}

#[test]
fn test_sub() {
    let mut interpreter = Interpreter {
        memory: Memory::with_data(HashMap::from_iter([(0, ValueBox::from(42))]), 10),
        head: Some(ValueBox::from(10)),
        next_input: 0,
    };

    let result = interpreter.execute_instruction(
        &Instruction::Sub(ValueBoxMemoryAddress::Pointer(0)),
        &[],
        &mut vec![],
    );
    assert_eq!(result.unwrap(), InstructionResult::NextInstruction);
    assert_eq!(interpreter.head, Some(ValueBox::from(-32)));
    assert_eq!(interpreter.memory.get(&0), Some(&ValueBox::from(42)));
}

#[test]
fn test_sub_characters() {
    let mut interpreter = Interpreter {
        memory: Memory::with_data(HashMap::from_iter([(0, ValueBox::from('E'))]), 10),
        head: Some(ValueBox::from('A')),
        next_input: 0,
    };

    let result = interpreter.execute_instruction(
        &Instruction::Sub(ValueBoxMemoryAddress::Pointer(0)),
        &[],
        &mut vec![],
    );
    assert_eq!(result.unwrap(), InstructionResult::NextInstruction);
    assert_eq!(interpreter.head, Some(ValueBox::from(-4)));
    assert_eq!(interpreter.memory.get(&0), Some(&ValueBox::from('E')));
}

#[test]
fn test_bump_up() {
    let mut interpreter = Interpreter {
        memory: Memory::with_data(HashMap::from_iter([(0, ValueBox::from(42))]), 10),
        head: Some(ValueBox::from(10)),
        next_input: 0,
    };

    let result = interpreter.execute_instruction(
        &Instruction::BumpUp(ValueBoxMemoryAddress::Pointer(0)),
        &[],
        &mut vec![],
    );
    assert_eq!(result.unwrap(), InstructionResult::NextInstruction);
    assert_eq!(interpreter.head, Some(ValueBox::from(43)));
    assert_eq!(interpreter.memory.get(&0), Some(&ValueBox::from(43)));
}

#[test]
fn test_bump_down() {
    let mut interpreter = Interpreter {
        memory: Memory::with_data(HashMap::from_iter([(0, ValueBox::from(42))]), 10),
        head: Some(ValueBox::from(10)),
        next_input: 0,
    };

    let result = interpreter.execute_instruction(
        &Instruction::BumpDown(ValueBoxMemoryAddress::Pointer(0)),
        &[],
        &mut vec![],
    );
    assert_eq!(result.unwrap(), InstructionResult::NextInstruction);
    assert_eq!(interpreter.head, Some(ValueBox::from(41)));
    assert_eq!(interpreter.memory.get(&0), Some(&ValueBox::from(41)));
}

#[test]
fn test_jump() {
    let mut interpreter = Interpreter {
        memory: Memory::default(),
        head: None,
        next_input: 0,
    };

    let result = interpreter.execute_instruction(
        &Instruction::Jump("label".to_string()),
        &[],
        &mut vec![],
    );
    assert_eq!(
        result.unwrap(),
        InstructionResult::JumpBlock("label".to_string())
    );
}

#[test]
fn test_jump_if_zero() {
    let mut interpreter = Interpreter {
        memory: Memory::default(),
        head: Some(ValueBox::from(0)),
        next_input: 0,
    };

    let result = interpreter.execute_instruction(
        &Instruction::JumpIfZero("label".to_string()),
        &[],
        &mut vec![],
    );
    assert_eq!(
        result.unwrap(),
        InstructionResult::JumpBlock("label".to_string())
    );
}

#[test]
fn test_jump_if_zero_not_zero() {
    let mut interpreter = Interpreter {
        memory: Memory::default(),
        head: Some(ValueBox::from(42)),
        next_input: 0,
    };

    let result = interpreter.execute_instruction(
        &Instruction::JumpIfZero("label".to_string()),
        &[],
        &mut vec![],
    );
    assert_eq!(result.unwrap(), InstructionResult::NextInstruction);
}

#[test]
fn test_jump_if_negative() {
    let mut interpreter = Interpreter {
        memory: Memory::default(),
        head: Some(ValueBox::from(-42)),
        next_input: 0,
    };

    let result = interpreter.execute_instruction(
        &Instruction::JumpIfNegative("label".to_string()),
        &[],
        &mut vec![],
    );
    assert_eq!(
        result.unwrap(),
        InstructionResult::JumpBlock("label".to_string())
    );
}

#[test]
fn test_jump_if_negative_not_negative() {
    let mut interpreter = Interpreter {
        memory: Memory::default(),
        head: Some(ValueBox::from(0)),
        next_input: 0,
    };

    let result = interpreter.execute_instruction(
        &Instruction::JumpIfNegative("label".to_string()),
        &[],
        &mut vec![],
    );
    assert_eq!(result.unwrap(), InstructionResult::NextInstruction);
}

fn fresh(memory: Memory, head: Option<ValueBox>) -> Interpreter {
    Interpreter {
        memory,
        head,
        next_input: 0,
    }
}

#[test]
fn out_with_empty_head_fails() {
    let mut interpreter = fresh(Memory::default(), None);
    let mut outputs = vec![];
    let result = interpreter.execute_instruction(&Instruction::Out, &[], &mut outputs);
    assert!(matches!(result, Err(ExecuteInstructionError::OutputNone)));
    assert!(outputs.is_empty());
}

#[test]
fn copy_to_with_empty_head_fails() {
    let mut interpreter = fresh(Memory::default(), None);
    let result = interpreter.execute_instruction(
        &Instruction::CopyTo(ValueBoxMemoryAddress::Pointer(0)),
        &[],
        &mut vec![],
    );
    assert!(matches!(result, Err(ExecuteInstructionError::CopyToHeadNone)));
}

#[test]
fn copy_to_out_of_bounds_fails_and_keeps_memory() {
    let mut interpreter = fresh(Memory::with_data(HashMap::new(), 3), Some(ValueBox::from(1)));
    let result = interpreter.execute_instruction(
        &Instruction::CopyTo(ValueBoxMemoryAddress::Pointer(4)),
        &[],
        &mut vec![],
    );
    assert!(matches!(
        result,
        Err(ExecuteInstructionError::CopyToInvalidAddress(_))
    ));
    assert_eq!(interpreter.memory.get(&4), None);
}

#[test]
fn copy_from_empty_tile_fails() {
    let mut interpreter = fresh(Memory::default(), Some(ValueBox::from(1)));
    let result = interpreter.execute_instruction(
        &Instruction::CopyFrom(ValueBoxMemoryAddress::Pointer(4)),
        &[],
        &mut vec![],
    );
    assert!(matches!(
        result,
        Err(ExecuteInstructionError::CopyFromInvalidAddress(_))
    ));
    assert_eq!(interpreter.head, Some(ValueBox::from(1)));
}

#[test]
fn add_errors() {
    let memory = || {
        Memory::with_data(
            HashMap::from_iter([(0, ValueBox::from('A')), (1, ValueBox::from(5))]),
            10,
        )
    };
    let add = |a| Instruction::Add(ValueBoxMemoryAddress::Pointer(a));

    let mut i = fresh(memory(), Some(ValueBox::from('B')));
    match i.execute_instruction(&add(0), &[], &mut vec![]) {
        Err(ExecuteInstructionError::AddCharacters { head, mem, address }) => {
            assert_eq!((head, mem, address), ('B', 'A', 0))
        }
        other => panic!("unexpected {:?}", other),
    }
    assert_eq!(i.head, Some(ValueBox::from('B')));

    let mut i = fresh(memory(), Some(ValueBox::from('B')));
    assert!(matches!(
        i.execute_instruction(&add(1), &[], &mut vec![]),
        Err(ExecuteInstructionError::AddCharacterAndNumber { address: 1, .. })
    ));

    let mut i = fresh(memory(), None);
    assert!(matches!(
        i.execute_instruction(&add(1), &[], &mut vec![]),
        Err(ExecuteInstructionError::AddHeadNone)
    ));

    let mut i = fresh(memory(), Some(ValueBox::from(1)));
    assert!(matches!(
        i.execute_instruction(&add(7), &[], &mut vec![]),
        Err(ExecuteInstructionError::AddInvalidAddress(_))
    ));

    let mut i = fresh(memory(), Some(ValueBox::from(i32::MAX)));
    assert!(matches!(
        i.execute_instruction(&add(1), &[], &mut vec![]),
        Err(ExecuteInstructionError::AddOverflow { head: i32::MAX, mem: 5 })
    ));
}

#[test]
fn sub_errors() {
    let memory = || {
        Memory::with_data(
            HashMap::from_iter([(0, ValueBox::from('A')), (1, ValueBox::from(5))]),
            10,
        )
    };
    let sub = |a| Instruction::Sub(ValueBoxMemoryAddress::Pointer(a));

    let mut i = fresh(memory(), Some(ValueBox::from(3)));
    assert!(matches!(
        i.execute_instruction(&sub(0), &[], &mut vec![]),
        Err(ExecuteInstructionError::SubCharacterAndNumber { address: 0, .. })
    ));
    let mut i = fresh(memory(), None);
    assert!(matches!(
        i.execute_instruction(&sub(1), &[], &mut vec![]),
        Err(ExecuteInstructionError::SubHeadNone)
    ));
    let mut i = fresh(memory(), None);
    assert!(matches!(
        i.execute_instruction(&sub(9), &[], &mut vec![]),
        Err(ExecuteInstructionError::SubInvalidAddress(_))
    ));
    let mut i = fresh(memory(), Some(ValueBox::from(i32::MIN)));
    assert!(matches!(
        i.execute_instruction(&sub(1), &[], &mut vec![]),
        Err(ExecuteInstructionError::SubOverflow { .. })
    ));
}

#[test]
fn sub_characters_is_alphabet_distance() {
    let mut i = fresh(
        Memory::with_data(HashMap::from_iter([(0, ValueBox::from('A'))]), 10),
        Some(ValueBox::from('E')),
    );
    i.execute_instruction(
        &Instruction::Sub(ValueBoxMemoryAddress::Pointer(0)),
        &[],
        &mut vec![],
    )
    .unwrap();
    assert_eq!(i.head, Some(ValueBox::from(4)));

    let mut i = fresh(
        Memory::with_data(HashMap::from_iter([(0, ValueBox::from('a'))]), 10),
        Some(ValueBox::from('z')),
    );
    i.execute_instruction(
        &Instruction::Sub(ValueBoxMemoryAddress::Pointer(0)),
        &[],
        &mut vec![],
    )
    .unwrap();
    assert_eq!(i.head, Some(ValueBox::from(25)));
}

#[test]
fn bump_errors() {
    let memory = || {
        Memory::with_data(
            HashMap::from_iter([(0, ValueBox::from('A')), (1, ValueBox::from(i32::MAX))]),
            10,
        )
    };
    let mut i = fresh(memory(), None);
    assert!(matches!(
        i.execute_instruction(
            &Instruction::BumpUp(ValueBoxMemoryAddress::Pointer(0)),
            &[],
            &mut vec![]
        ),
        Err(ExecuteInstructionError::BumpCharacter)
    ));
    assert!(matches!(
        i.execute_instruction(
            &Instruction::BumpDown(ValueBoxMemoryAddress::Pointer(5)),
            &[],
            &mut vec![]
        ),
        Err(ExecuteInstructionError::BumpInvalidAddress(_))
    ));
    assert!(matches!(
        i.execute_instruction(
            &Instruction::BumpUp(ValueBoxMemoryAddress::Pointer(1)),
            &[],
            &mut vec![]
        ),
        Err(ExecuteInstructionError::BumpOverflow { value: i32::MAX })
    ));
    assert_eq!(i.memory.get(&1), Some(&ValueBox::from(i32::MAX)));
}

#[test]
fn conditional_jumps_with_character_or_empty_head() {
    let label = || "x".to_string();
    let mut i = fresh(Memory::default(), Some(ValueBox::from('A')));
    assert_eq!(
        i.execute_instruction(&Instruction::JumpIfZero(label()), &[], &mut vec![])
            .unwrap(),
        InstructionResult::NextInstruction
    );
    assert_eq!(
        i.execute_instruction(&Instruction::JumpIfNegative(label()), &[], &mut vec![])
            .unwrap(),
        InstructionResult::NextInstruction
    );
    let mut i = fresh(Memory::default(), None);
    assert!(matches!(
        i.execute_instruction(&Instruction::JumpIfZero(label()), &[], &mut vec![]),
        Err(ExecuteInstructionError::JumpIfZeroInvalidHead(None))
    ));
    assert!(matches!(
        i.execute_instruction(&Instruction::JumpIfNegative(label()), &[], &mut vec![]),
        Err(ExecuteInstructionError::JumpIfNegativeInvalidHead(None))
    ));
}

#[test]
fn indirect_copy_to_writes_through_pointer() {
    let mut i = fresh(
        Memory::with_data(HashMap::from_iter([(0, ValueBox::from(3))]), 10),
        Some(ValueBox::from('K')),
    );
    i.execute_instruction(
        &Instruction::CopyTo(ValueBoxMemoryAddress::PointerAddress(0)),
        &[],
        &mut vec![],
    )
    .unwrap();
    assert_eq!(i.memory.get(&3), Some(&ValueBox::from('K')));
}
