//! The command-line options: how each is named and described, and how its arguments
//! fill the run's configuration. Reading the arguments and files is left to the caller.
use vstd::prelude::*;
use std::collections::HashMap;
use crate::script_object::value_box::ValueBox;
use crate::text::{chars_of, line_spans, parse_usize, piece_spans, split_lines, split_on, string_of, usize_numeral};

verus! {

broadcast use vstd::std_specs::hash::group_hash_axioms;

/// The configuration of a run, as the command line gives it.
#[derive(Debug)]
pub struct CommandLineArgs {
    pub script_file: String,
    pub input_values: Vec<ValueBox>,
    pub memory: HashMap<usize, ValueBox>,
    pub max_memory_address: usize,
}

/// The options that the command line accepts.
#[derive(Debug, PartialEq, Eq, Structural, Clone, Copy)]
pub enum CommandLineOption {
    InputValues,
    Memory,
    MaxMemoryAddress,
}

/// Why the arguments of an option could not be used.
#[derive(Debug)]
pub enum CommandLineError {
    /// Not a known option.
    InvalidOption(String),
    /// An input value that is neither a number nor a single character.
    InvalidInputValue(String),
    /// Memory arguments that do not come in address and value pairs.
    OddMemoryArguments,
    /// A memory address that is not a non-negative integer.
    InvalidMemoryAddress(String),
    /// A memory value that is neither a number nor a single character.
    InvalidMemoryValue(String),
    /// No argument given for the maximum memory address.
    MissingMaxMemoryAddress,
    /// A maximum memory address that is not a non-negative integer.
    InvalidMaxMemoryAddress(String),
}

impl CommandLineArgs {
    /// The configuration with no inputs, an empty memory and no practical bound on addresses.
    pub fn default(script_file: String) -> (r: CommandLineArgs)
        ensures
            r.script_file == script_file,
            r.input_values@ == Seq::<ValueBox>::empty(),
            r.memory@ == Map::<usize, ValueBox>::empty(),
            r.max_memory_address == usize::MAX,
    {
        CommandLineArgs {
            script_file,
            input_values: Vec::new(),
            memory: HashMap::new(),
            max_memory_address: usize::MAX,
        }
    }
}

/// The views of a list of arguments.
pub open spec fn texts(args: Seq<String>) -> Seq<Seq<char>> {
    args.map_values(|a: String| a@)
}

/// The values that the arguments denote, where each denotes one.
pub open spec fn values_of(args: Seq<Seq<char>>) -> Seq<ValueBox> {
    args.map_values(|a: Seq<char>| ValueBox::parsed(a)->Some_0)
}

/// Whether the memory pair `k` of `args` (address `2k`, value `2k + 1`) can be read.
pub open spec fn pair_ok(args: Seq<Seq<char>>, k: int) -> bool {
    usize_numeral(args[2 * k]) is Some && ValueBox::parsed(args[2 * k + 1]) is Some
}

/// `m` with the first `n` memory pairs of `args` written into it, in order.
pub open spec fn with_pairs(m: Map<usize, ValueBox>, args: Seq<Seq<char>>, n: nat) -> Map<usize, ValueBox>
    decreases n,
{
    if n == 0 {
        m
    } else {
        let k = n - 1;
        with_pairs(m, args, (n - 1) as nat).insert(
            usize_numeral(args[2 * k])->Some_0,
            ValueBox::parsed(args[2 * k + 1])->Some_0,
        )
    }
}

impl CommandLineError {
    /// Whether this is the error for input-value arguments `args`: the first that is
    /// not a value.
    pub open spec fn explains_input_values(&self, args: Seq<Seq<char>>) -> bool {
        match self {
            CommandLineError::InvalidInputValue(a) => exists|i: int|
                0 <= i < args.len() && ValueBox::parsed(#[trigger] args[i]) is None && a@ == args[i]
                    && forall|j: int| 0 <= j < i ==> #[trigger] ValueBox::parsed(args[j]) is Some,
            _ => false,
        }
    }

    /// Whether this is the error for memory arguments `args`: an odd count, or the
    /// first pair whose address or value cannot be read.
    pub open spec fn explains_memory(&self, args: Seq<Seq<char>>) -> bool {
        match self {
            CommandLineError::OddMemoryArguments => args.len() % 2 == 1,
            CommandLineError::InvalidMemoryAddress(a) => args.len() % 2 == 0 && exists|k: int|
                0 <= k < args.len() / 2 && usize_numeral(#[trigger] args[2 * k]) is None && a@ == args[2 * k]
                    && forall|j: int| 0 <= j < k ==> #[trigger] pair_ok(args, j),
            CommandLineError::InvalidMemoryValue(a) => args.len() % 2 == 0 && exists|k: int|
                0 <= k < args.len() / 2 && usize_numeral(args[2 * k]) is Some
                    && ValueBox::parsed(#[trigger] args[2 * k + 1]) is None && a@ == args[2 * k + 1]
                    && forall|j: int| 0 <= j < k ==> #[trigger] pair_ok(args, j),
            _ => false,
        }
    }

    /// Whether this is the error for maximum-address arguments `args`.
    pub open spec fn explains_max_address(&self, args: Seq<Seq<char>>) -> bool {
        match self {
            CommandLineError::MissingMaxMemoryAddress => args.len() == 0,
            CommandLineError::InvalidMaxMemoryAddress(a) => args.len() > 0 && usize_numeral(args[0]) is None
                && a@ == args[0],
            _ => false,
        }
    }
}

impl CommandLineOption {
    /// Every option, in the order in which help lists them.
    pub fn all_options() -> (r: [CommandLineOption; 3])
        ensures
            r@ == seq![CommandLineOption::InputValues, CommandLineOption::Memory, CommandLineOption::MaxMemoryAddress],
    {
        let r = [CommandLineOption::InputValues, CommandLineOption::Memory, CommandLineOption::MaxMemoryAddress];
        assert(r@ =~= seq![CommandLineOption::InputValues, CommandLineOption::Memory, CommandLineOption::MaxMemoryAddress]);
        r
    }

    /// The option that `s` names, by its short or long name.
    pub fn from_str(s: &str) -> (r: Result<CommandLineOption, CommandLineError>)
        ensures
            match r {
                Ok(o) => s@ == o.short_name_spec() || s@ == o.long_name_spec(),
                Err(CommandLineError::InvalidOption(t)) => t@ == s@
                    && forall|o: CommandLineOption| s@ != o.short_name_spec() && s@ != o.long_name_spec(),
                Err(_) => false,
            },
    {
        let chars = chars_of(s);
        let n = chars.len();
        let all = CommandLineOption::all_options();
        let mut k: usize = 0;
        while k < 3
            invariant
                k <= 3,
                chars@ == s@,
                n == chars@.len(),
                all@ == seq![CommandLineOption::InputValues, CommandLineOption::Memory, CommandLineOption::MaxMemoryAddress],
                forall|j: int| 0 <= j < k ==> s@ != (#[trigger] all@[j]).short_name_spec() && s@ != all@[j].long_name_spec(),
            decreases 3 - k,
        {
            let o = all[k];
            assert(chars@.subrange(0, n as int) =~= chars@);
            if crate::text::is_word(&chars, 0, n, o.short_name()) || crate::text::is_word(&chars, 0, n, o.long_name()) {
                return Ok(o);
            }
            k = k + 1;
        }
        assert forall|o: CommandLineOption| s@ != o.short_name_spec() && s@ != o.long_name_spec() by {
            match o {
                CommandLineOption::InputValues => assert(all@[0] == o),
                CommandLineOption::Memory => assert(all@[1] == o),
                CommandLineOption::MaxMemoryAddress => assert(all@[2] == o),
            }
        }
        Err(CommandLineError::InvalidOption(crate::text::string_of(&chars, 0, n)))
    }

    /// The option's short name.
    pub open spec fn short_name_spec(self) -> Seq<char> {
        match self {
            CommandLineOption::InputValues => "-i"@,
            CommandLineOption::Memory => "-m"@,
            CommandLineOption::MaxMemoryAddress => "-M"@,
        }
    }

    /// The option's long name.
    pub open spec fn long_name_spec(self) -> Seq<char> {
        match self {
            CommandLineOption::InputValues => "--inputs"@,
            CommandLineOption::Memory => "--memory"@,
            CommandLineOption::MaxMemoryAddress => "--max-mem"@,
        }
    }

    /// The option's short name.
    pub fn short_name(&self) -> (r: &'static str)
        ensures
            r@ == self.short_name_spec(),
    {
        match self {
            CommandLineOption::InputValues => "-i",
            CommandLineOption::Memory => "-m",
            CommandLineOption::MaxMemoryAddress => "-M",
        }
    }

    /// The option's long name.
    pub fn long_name(&self) -> (r: &'static str)
        ensures
            r@ == self.long_name_spec(),
    {
        match self {
            CommandLineOption::InputValues => "--inputs",
            CommandLineOption::Memory => "--memory",
            CommandLineOption::MaxMemoryAddress => "--max-mem",
        }
    }

    /// What the option's arguments look like.
    pub fn values_description(&self) -> (r: &'static str)
        ensures
            r@ == match self {
                CommandLineOption::InputValues => "<value> <value>..."@,
                CommandLineOption::Memory => "<address> <value>... | <memory_file>"@,
                CommandLineOption::MaxMemoryAddress => "<max_address>"@,
            },
    {
        match self {
            CommandLineOption::InputValues => "<value> <value>...",
            CommandLineOption::Memory => "<address> <value>... | <memory_file>",
            CommandLineOption::MaxMemoryAddress => "<max_address>",
        }
    }

    /// What the option does.
    pub fn description(&self) -> (r: &'static str)
        ensures
            r@ == match self {
                CommandLineOption::InputValues => "sets the values to be used as input"@,
                CommandLineOption::Memory => "sets the values to be used as memory"@,
                CommandLineOption::MaxMemoryAddress => "sets the maximum memory address. That's the last tile number in the game."@,
            },
    {
        match self {
            CommandLineOption::InputValues => "sets the values to be used as input",
            CommandLineOption::Memory => "sets the values to be used as memory",
            CommandLineOption::MaxMemoryAddress => {
                "sets the maximum memory address. That's the last tile number in the game."
            },
        }
    }

    /// An example of the option in use.
    pub fn example(&self) -> (r: &'static str)
        ensures
            r@ == match self {
                CommandLineOption::InputValues => "-i 10 20 30 A E F"@,
                CommandLineOption::Memory => "-m 0 10 1 A 2 30 | -m memory.txt"@,
                CommandLineOption::MaxMemoryAddress => "-M 24"@,
            },
    {
        match self {
            CommandLineOption::InputValues => "-i 10 20 30 A E F",
            CommandLineOption::Memory => "-m 0 10 1 A 2 30 | -m memory.txt",
            CommandLineOption::MaxMemoryAddress => "-M 24",
        }
    }

    /// What holds when the option is not given.
    pub fn default_value(&self) -> (r: &'static str)
        ensures
            r@ == match self {
                CommandLineOption::InputValues => "no input values"@,
                CommandLineOption::Memory => "no starting memory values"@,
                CommandLineOption::MaxMemoryAddress => "no (theoretical) maximum"@,
            },
    {
        match self {
            CommandLineOption::InputValues => "no input values",
            CommandLineOption::Memory => "no starting memory values",
            CommandLineOption::MaxMemoryAddress => "no (theoretical) maximum",
        }
    }

    /// Applies the option's arguments to the configuration. For `Memory` they are
    /// address and value pairs (a memory file is read, and split into words, by the
    /// caller). On an error the configuration is left as it was.
    pub fn handle_args(&self, option_args: &Vec<String>, command_line_args: &mut CommandLineArgs) -> (r: Result<(), CommandLineError>)
        ensures
            ({
                let args = texts(option_args@);
                let old_args = *old(command_line_args);
                let new_args = *final(command_line_args);
                &&& new_args.script_file == old_args.script_file
                &&& r is Err ==> new_args == old_args
                &&& match self {
                    CommandLineOption::InputValues => match r {
                        Ok(()) => (forall|i: int| 0 <= i < args.len() ==> #[trigger] ValueBox::parsed(args[i]) is Some)
                            && new_args.input_values@ == old_args.input_values@ + values_of(args)
                            && new_args.memory@ == old_args.memory@
                            && new_args.max_memory_address == old_args.max_memory_address,
                        Err(e) => e.explains_input_values(args),
                    },
                    CommandLineOption::Memory => match r {
                        Ok(()) => args.len() % 2 == 0
                            && (forall|k: int| 0 <= k < args.len() / 2 ==> #[trigger] pair_ok(args, k))
                            && new_args.memory@ == with_pairs(old_args.memory@, args, (args.len() / 2) as nat)
                            && new_args.input_values == old_args.input_values
                            && new_args.max_memory_address == old_args.max_memory_address,
                        Err(e) => e.explains_memory(args),
                    },
                    CommandLineOption::MaxMemoryAddress => match r {
                        Ok(()) => args.len() > 0 && usize_numeral(args[0]) == Some(new_args.max_memory_address)
                            && new_args.input_values == old_args.input_values
                            && new_args.memory == old_args.memory,
                        Err(e) => e.explains_max_address(args),
                    },
                }
            }),
    {
        let ghost args = texts(option_args@);
        match self {
            CommandLineOption::InputValues => {
                let mut values: Vec<ValueBox> = Vec::new();
                let mut i: usize = 0;
                while i < option_args.len()
                    invariant
                        *self == CommandLineOption::InputValues,
                        *command_line_args == *old(command_line_args),
                        i <= option_args@.len(),
                        args == texts(option_args@),
                        forall|j: int| 0 <= j < i ==> #[trigger] ValueBox::parsed(args[j]) is Some,
                        values@ == values_of(args.take(i as int)),
                    decreases option_args@.len() - i,
                {
                    match ValueBox::from_str(option_args[i].as_str()) {
                        Ok(v) => {
                            values.push(v);
                            assert(values@ =~= values_of(args.take(i + 1)));
                        },
                        Err(_) => {
                            assert(args[i as int] == option_args@[i as int]@);
                            assert(ValueBox::parsed(args[i as int]) is None);
                            return Err(CommandLineError::InvalidInputValue(option_args[i].clone()));
                        },
                    }
                    i = i + 1;
                }
                assert(args.take(args.len() as int) =~= args);
                let mut k: usize = 0;
                let ghost start = command_line_args.input_values@;
                while k < values.len()
                    invariant
                        k <= values@.len(),
                        command_line_args.input_values@ == start + values@.take(k as int),
                        command_line_args.script_file == old(command_line_args).script_file,
                        command_line_args.memory == old(command_line_args).memory,
                        command_line_args.max_memory_address == old(command_line_args).max_memory_address,
                        start == old(command_line_args).input_values@,
                    decreases values@.len() - k,
                {
                    command_line_args.input_values.push(values[k]);
                    k = k + 1;
                    assert(command_line_args.input_values@ =~= start + values@.take(k as int));
                }
                assert(values@.take(values@.len() as int) =~= values@);
                Ok(())
            },
            CommandLineOption::Memory => {
                if option_args.len() % 2 != 0 {
                    return Err(CommandLineError::OddMemoryArguments);
                }
                let mut memory = command_line_args.memory.clone();
                let mut k: usize = 0;
                while k < option_args.len() / 2
                    invariant
                        *self == CommandLineOption::Memory,
                        option_args@.len() % 2 == 0,
                        k <= option_args@.len() / 2,
                        args == texts(option_args@),
                        forall|j: int| 0 <= j < k ==> #[trigger] pair_ok(args, j),
                        memory@ == with_pairs(old(command_line_args).memory@, args, k as nat),
                        *command_line_args == *old(command_line_args),
                    decreases option_args@.len() / 2 - k,
                {
                    let address_text = &option_args[2 * k];
                    let value_text = &option_args[2 * k + 1];
                    assert(args[2 * k as int] == option_args@[2 * k as int]@);
                    assert(args[2 * k as int + 1] == option_args@[2 * k as int + 1]@);
                    let address = match parse_usize(&chars_of(address_text.as_str())) {
                        Some(a) => a,
                        None => {
                            assert(usize_numeral(args[2 * (k as int)]) is None);
                            return Err(CommandLineError::InvalidMemoryAddress(address_text.clone()));
                        },
                    };
                    let value = match ValueBox::from_str(value_text.as_str()) {
                        Ok(v) => v,
                        Err(_) => {
                            assert(usize_numeral(args[2 * (k as int)]) is Some);
                            assert(ValueBox::parsed(args[2 * (k as int) + 1]) is None);
                            return Err(CommandLineError::InvalidMemoryValue(value_text.clone()));
                        },
                    };
                    assert(pair_ok(args, k as int));
                    memory.insert(address, value);
                    k = k + 1;
                }
                command_line_args.memory = memory;
                Ok(())
            },
            CommandLineOption::MaxMemoryAddress => {
                if option_args.len() == 0 {
                    return Err(CommandLineError::MissingMaxMemoryAddress);
                }
                match parse_usize(&chars_of(option_args[0].as_str())) {
                    Some(max) => {
                        command_line_args.max_memory_address = max;
                        Ok(())
                    },
                    None => Err(CommandLineError::InvalidMaxMemoryAddress(option_args[0].clone())),
                }
            },
        }
    }
}

/// The option that `a` names, if any.
pub open spec fn option_named(a: Seq<char>) -> Option<CommandLineOption> {
    if a == CommandLineOption::InputValues.short_name_spec() || a == CommandLineOption::InputValues.long_name_spec() {
        Some(CommandLineOption::InputValues)
    } else if a == CommandLineOption::Memory.short_name_spec() || a == CommandLineOption::Memory.long_name_spec() {
        Some(CommandLineOption::Memory)
    } else if a == CommandLineOption::MaxMemoryAddress.short_name_spec()
        || a == CommandLineOption::MaxMemoryAddress.long_name_spec() {
        Some(CommandLineOption::MaxMemoryAddress)
    } else {
        None
    }
}

/// The arguments grouped under the options that precede them.
pub open spec fn option_groups(args: Seq<Seq<char>>) -> Seq<(CommandLineOption, Seq<Seq<char>>)>
    decreases args.len(),
{
    if args.len() == 0 {
        seq![]
    } else {
        let g = option_groups(args.drop_last());
        match option_named(args.last()) {
            Some(o) => g.push((o, seq![])),
            None => if g.len() == 0 {
                g
            } else {
                g.update(g.len() - 1, (g.last().0, g.last().1.push(args.last())))
            },
        }
    }
}

/// The view of a group of arguments.
pub open spec fn group_view(g: (CommandLineOption, Vec<String>)) -> (CommandLineOption, Seq<Seq<char>>) {
    (g.0, texts(g.1@))
}

proof fn lemma_option_names(o: CommandLineOption)
    ensures
        option_named(o.short_name_spec()) == Some(o),
        option_named(o.long_name_spec()) == Some(o),
{
    reveal_strlit("-i");
    reveal_strlit("-m");
    reveal_strlit("-M");
    reveal_strlit("--inputs");
    reveal_strlit("--memory");
    reveal_strlit("--max-mem");
    assert("-i"@.len() == 2 && "-m"@.len() == 2 && "-M"@.len() == 2);
    assert("--inputs"@.len() == 8 && "--memory"@.len() == 8 && "--max-mem"@.len() == 9);
    assert("-m"@[1] != "-M"@[1]);
    assert("--inputs"@[2] != "--memory"@[2]);
    assert("--inputs"@ != "-i"@ && "--inputs"@ != "-m"@ && "--inputs"@ != "-M"@);
    assert("--memory"@ != "-i"@ && "--memory"@ != "-m"@ && "--memory"@ != "-M"@ && "--memory"@ != "--inputs"@);
    assert("--max-mem"@ != "-i"@ && "--max-mem"@ != "-m"@ && "--max-mem"@ != "-M"@);
    assert("--max-mem"@ != "--inputs"@ && "--max-mem"@ != "--memory"@);
}

/// Groups the arguments that follow the script file under the options that precede
/// them; an error where the first is not an option.
pub fn group_options(args: &Vec<String>) -> (r: Result<Vec<(CommandLineOption, Vec<String>)>, CommandLineError>)
    ensures
        match r {
            Ok(groups) => (args@.len() == 0 || option_named(args@[0]@) is Some)
                && groups@.map_values(|g: (CommandLineOption, Vec<String>)| group_view(g)) == option_groups(texts(args@)),
            Err(CommandLineError::InvalidOption(a)) => args@.len() > 0 && option_named(args@[0]@) is None
                && a@ == args@[0]@,
            Err(_) => false,
        },
{
    let ghost all = texts(args@);
    let mut groups: Vec<(CommandLineOption, Vec<String>)> = Vec::new();
    if args.len() == 0 {
        assert(groups@.map_values(|g: (CommandLineOption, Vec<String>)| group_view(g)) =~= option_groups(all));
        return Ok(groups);
    }
    let mut current = match CommandLineOption::from_str(args[0].as_str()) {
        Ok(o) => {
            proof {
                lemma_option_names(o);
            }
            o
        },
        Err(_) => {
            proof {
                lemma_option_names(CommandLineOption::InputValues);
                lemma_option_names(CommandLineOption::Memory);
                lemma_option_names(CommandLineOption::MaxMemoryAddress);
            }
            return Err(CommandLineError::InvalidOption(args[0].clone()));
        },
    };
    let mut current_args: Vec<String> = Vec::new();
    assert(all.take(1).drop_last() =~= all.take(0));
    assert(all.take(1).last() == args@[0]@);
    assert(texts(current_args@) =~= seq![]);
    assert(groups@.map_values(|g: (CommandLineOption, Vec<String>)| group_view(g)) =~= seq![]);
    assert(option_groups(all.take(0)) =~= seq![]);
    let mut i: usize = 1;
    while i < args.len()
        invariant
            1 <= i <= args@.len(),
            all == texts(args@),
            option_named(all[0]) is Some,
            groups@.map_values(|g: (CommandLineOption, Vec<String>)| group_view(g)).push((current, texts(current_args@)))
                == option_groups(all.take(i as int)),
        decreases args@.len() - i,
    {
        let ghost before = groups@.map_values(|g: (CommandLineOption, Vec<String>)| group_view(g));
        assert(all.take(i + 1).drop_last() =~= all.take(i as int));
        assert(all.take(i + 1).last() == args@[i as int]@);
        match CommandLineOption::from_str(args[i].as_str()) {
            Ok(o) => {
                proof {
                    lemma_option_names(o);
                }
                let finished = current_args;
                groups.push((current, finished));
                current = o;
                current_args = Vec::new();
                assert(groups@.map_values(|g: (CommandLineOption, Vec<String>)| group_view(g)) =~= before.push((groups@.last().0, texts(groups@.last().1@))));
                assert(texts(current_args@) =~= seq![]);
            },
            Err(_) => {
                proof {
                    lemma_option_names(CommandLineOption::InputValues);
                    lemma_option_names(CommandLineOption::Memory);
                    lemma_option_names(CommandLineOption::MaxMemoryAddress);
                }
                let ghost old_args = texts(current_args@);
                current_args.push(args[i].clone());
                assert(texts(current_args@) =~= old_args.push(args@[i as int]@));
            },
        }
        i = i + 1;
    }
    let ghost before = groups@.map_values(|g: (CommandLineOption, Vec<String>)| group_view(g));
    groups.push((current, current_args));
    assert(groups@.map_values(|g: (CommandLineOption, Vec<String>)| group_view(g)) =~= before.push(group_view(groups@.last())));
    assert(all.take(args@.len() as int) =~= all);
    Ok(groups)
}

/// `l` without one trailing `'\r'`.
pub open spec fn strip_cr(l: Seq<char>) -> Seq<char> {
    if l.len() > 0 && l.last() == '\r' {
        l.drop_last()
    } else {
        l
    }
}

/// The lines of `s` as `str::lines` yields them: split at `'\n'`, a `'\r'` before a
/// `'\n'` dropped, and no empty line after a final `'\n'`.
pub open spec fn std_lines(s: Seq<char>) -> Seq<Seq<char>> {
    let p = split_lines(s);
    let body = p.take(p.len() - 1).map_values(|l: Seq<char>| strip_cr(l));
    if p.last().len() > 0 {
        body.push(p.last())
    } else {
        body
    }
}

/// The lines `ls` joined with single spaces.
pub open spec fn join_with_spaces(ls: Seq<Seq<char>>) -> Seq<char>
    decreases ls.len(),
{
    if ls.len() == 0 {
        seq![]
    } else if ls.len() == 1 {
        ls[0]
    } else {
        join_with_spaces(ls.drop_last()) + seq![' '] + ls.last()
    }
}

/// The words of a memory file: its lines joined with spaces, then split at each space.
pub open spec fn memory_file_words(s: Seq<char>) -> Seq<Seq<char>> {
    split_on(join_with_spaces(std_lines(s)), ' ')
}

proof fn lemma_join_push(ls: Seq<Seq<char>>, l: Seq<char>)
    ensures
        join_with_spaces(ls.push(l)) == if ls.len() == 0 { l } else { join_with_spaces(ls) + seq![' '] + l },
{
    assert(ls.push(l).drop_last() =~= ls);
    if ls.len() == 0 {
        assert(ls.push(l)[0] == l);
    }
}

fn push_range(v: &mut Vec<char>, src: &Vec<char>, from: usize, to: usize)
    requires
        from <= to <= src@.len(),
    ensures
        final(v)@ == old(v)@ + src@.subrange(from as int, to as int),
{
    let mut i: usize = from;
    while i < to
        invariant
            from <= i <= to <= src@.len(),
            v@ == old(v)@ + src@.subrange(from as int, i as int),
        decreases to - i,
    {
        v.push(src[i]);
        i = i + 1;
        assert(v@ =~= old(v)@ + src@.subrange(from as int, i as int));
    }
}

/// The words of the text of a memory file, each an address or a value.
pub fn memory_words(content: &str) -> (r: Vec<String>)
    ensures
        texts(r@) == memory_file_words(content@),
{
    let chars = chars_of(content);
    let spans = line_spans(&chars);
    let ghost p = split_lines(chars@);
    proof {
        crate::text::lemma_split_on_nonempty(chars@, '\n');
    }
    let n = spans.len();
    let mut joined: Vec<char> = Vec::new();
    let mut k: usize = 0;
    assert(p.take(0).map_values(|l: Seq<char>| strip_cr(l)) =~= seq![]);
    while k + 1 < n
        invariant
            n == spans@.len(),
            n == p.len(),
            n >= 1,
            k < n,
            p == split_lines(chars@),
            forall|j: int| 0 <= j < spans@.len() ==> (#[trigger] spans@[j]).0 <= spans@[j].1 <= chars@.len(),
            forall|j: int| 0 <= j < spans@.len() ==> #[trigger] p[j] == chars@.subrange(spans@[j].0 as int, spans@[j].1 as int),
            joined@ == join_with_spaces(p.take(k as int).map_values(|l: Seq<char>| strip_cr(l))),
        decreases n - k,
    {
        let (a, b) = spans[k];
        let end = if b > a && chars[b - 1] == '\r' { b - 1 } else { b };
        let ghost before = p.take(k as int).map_values(|l: Seq<char>| strip_cr(l));
        proof {
            lemma_join_push(before, strip_cr(p[k as int]));
            assert(p.take(k + 1).map_values(|l: Seq<char>| strip_cr(l)) =~= before.push(strip_cr(p[k as int])));
            if b > a && chars@[b - 1] == '\r' {
                assert(chars@.subrange(a as int, b as int).drop_last() =~= chars@.subrange(a as int, end as int));
            }
        }
        if k > 0 {
            joined.push(' ');
        }
        push_range(&mut joined, &chars, a, end);
        assert(joined@ =~= join_with_spaces(p.take(k + 1).map_values(|l: Seq<char>| strip_cr(l))));
        k = k + 1;
    }
    let ghost body = p.take(n - 1).map_values(|l: Seq<char>| strip_cr(l));
    let (a, b) = spans[n - 1];
    if a < b {
        proof {
            lemma_join_push(body, p[n - 1]);
        }
        if n > 1 {
            joined.push(' ');
        }
        push_range(&mut joined, &chars, a, b);
        assert(joined@ =~= join_with_spaces(std_lines(content@)));
    }
    let words = piece_spans(&joined, ' ');
    let mut r: Vec<String> = Vec::new();
    let mut j: usize = 0;
    while j < words.len()
        invariant
            j <= words@.len(),
            words@.len() == split_on(joined@, ' ').len(),
            forall|i: int| 0 <= i < words@.len() ==> (#[trigger] words@[i]).0 <= words@[i].1 <= joined@.len(),
            forall|i: int| 0 <= i < words@.len() ==> #[trigger] split_on(joined@, ' ')[i] == joined@.subrange(words@[i].0 as int, words@[i].1 as int),
            texts(r@) == split_on(joined@, ' ').take(j as int),
        decreases words@.len() - j,
    {
        let (a, b) = words[j];
        let ghost before = r@;
        let word = string_of(&joined, a, b);
        r.push(word);
        assert(r@ == before.push(word));
        assert(texts(r@) =~= texts(before).push(word@));
        j = j + 1;
        assert(texts(r@) =~= split_on(joined@, ' ').take(j as int));
    }
    assert(split_on(joined@, ' ').take(j as int) =~= split_on(joined@, ' '));
    r
}

} // verus!
