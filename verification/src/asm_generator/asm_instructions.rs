//! The assembly text templates: every fragment of the emitted program, each
//! with a contract pinning its exact text.
//!
//! Register roles, fixed across all fragments: `%eax` scratch/value, `%ebx`
//! address, `%ecx` tape length, `%edx` cell pointer, `%esi`/`%edi` save
//! slots for `%ecx`/`%edx` around syscalls. The two syscalls (write 4,
//! read 3) overwrite `%eax`-`%edx` with their own arguments, so every
//! syscall-bearing fragment saves the reusable roles before the call and
//! restores them after. The tape is the 26-byte `array` with its length in
//! `array_len`.
use vstd::prelude::*;

use vstd::string::StringExecFns;

verus! {

/// The decimal digit character of a value below ten.
pub open spec fn digit_char(d: nat) -> char {
    if d == 0 {
        '0'
    } else if d == 1 {
        '1'
    } else if d == 2 {
        '2'
    } else if d == 3 {
        '3'
    } else if d == 4 {
        '4'
    } else if d == 5 {
        '5'
    } else if d == 6 {
        '6'
    } else if d == 7 {
        '7'
    } else if d == 8 {
        '8'
    } else {
        '9'
    }
}

/// The decimal representation of a number, most significant digit first,
/// without leading zeros.
pub open spec fn dec_digits(n: nat) -> Seq<char>
    decreases n,
{
    if n < 10 {
        seq![digit_char(n)]
    } else {
        dec_digits(n / 10) + seq![digit_char(n % 10)]
    }
}

/// One decimal digit as text.
fn digit_str(d: usize) -> (r: &'static str)
    requires
        d < 10,
    ensures
        r@ == seq![digit_char(d as nat)],
{
    proof {
        reveal_strlit("0");
        reveal_strlit("1");
        reveal_strlit("2");
        reveal_strlit("3");
        reveal_strlit("4");
        reveal_strlit("5");
        reveal_strlit("6");
        reveal_strlit("7");
        reveal_strlit("8");
        reveal_strlit("9");
        assert("0"@ =~= seq![digit_char(0)]);
        assert("1"@ =~= seq![digit_char(1)]);
        assert("2"@ =~= seq![digit_char(2)]);
        assert("3"@ =~= seq![digit_char(3)]);
        assert("4"@ =~= seq![digit_char(4)]);
        assert("5"@ =~= seq![digit_char(5)]);
        assert("6"@ =~= seq![digit_char(6)]);
        assert("7"@ =~= seq![digit_char(7)]);
        assert("8"@ =~= seq![digit_char(8)]);
        assert("9"@ =~= seq![digit_char(9)]);
    }
    if d == 0 {
        "0"
    } else if d == 1 {
        "1"
    } else if d == 2 {
        "2"
    } else if d == 3 {
        "3"
    } else if d == 4 {
        "4"
    } else if d == 5 {
        "5"
    } else if d == 6 {
        "6"
    } else if d == 7 {
        "7"
    } else if d == 8 {
        "8"
    } else {
        "9"
    }
}

/// A number as decimal text.
pub fn dec_string(n: usize) -> (r: String)
    ensures
        r@ == dec_digits(n as nat),
    decreases n,
{
    if n < 10 {
        String::from_str(digit_str(n))
    } else {
        let mut s = dec_string(n / 10);
        s.append(digit_str(n % 10));
        s
    }
}

// ---------------------------------------------------------------------
// Register bookkeeping around syscalls.
// ---------------------------------------------------------------------

/// The text that saves the tape-length and cell-pointer roles into the save
/// slots.
pub open spec fn spec_save_reg() -> Seq<char> {
    "
    # Save Reg for cell_memory_(len & ptr)
    mov     %ecx, %esi
    mov     %edx, %edi
    "@
}

/// Save `%ecx` and `%edx` before a syscall redefines them.
fn save_reg() -> (r: String)
    ensures
        r@ == spec_save_reg(),
{
    String::from_str(
        "
    # Save Reg for cell_memory_(len & ptr)
    mov     %ecx, %esi
    mov     %edx, %edi
    ",
    )
}

/// The text that restores the tape-length and cell-pointer roles from the
/// save slots.
pub open spec fn spec_restore_reg() -> Seq<char> {
    "
    # Restore Reg for cell_(len & ptr)
    mov     %esi, %ecx
    mov     %edi, %edx
    "@
}

/// Restore `%ecx` and `%edx` after a syscall.
fn restore_reg() -> (r: String)
    ensures
        r@ == spec_restore_reg(),
{
    String::from_str(
        "
    # Restore Reg for cell_(len & ptr)
    mov     %esi, %ecx
    mov     %edi, %edx
    ",
    )
}

// ---------------------------------------------------------------------
// Program scaffolding.
// ---------------------------------------------------------------------

/// The text of the data section: the 26-cell tape and its length constant.
pub open spec fn spec_asm_data_init() -> Seq<char> {
    "
.data
    array_len: .long 26        # Define a variable to store the length of the array
    array: .space 26           # Define an array of characters with length 26
    "@
}

/// The start of the data section of the assembly file.
#[must_use]
pub fn asm_data_init() -> (r: String)
    ensures
        r@ == spec_asm_data_init(),
{
    String::from_str(
        "
.data
    array_len: .long 26        # Define a variable to store the length of the array
    array: .space 26           # Define an array of characters with length 26
    ",
    )
}

/// The text of the program entry: zero-fill the tape and reset the cell
/// pointer to 0.
pub open spec fn spec_asm_main_init() -> Seq<char> {
    "
.text
.globl _start
_start:
    movl    array_len, %ecx             # Load the length of the array into ecx
    xor     %edx, %edx              # Initialize a counter register to 0

fill_array:
    movb    $0, array(%edx)     # Store 0 to the array at index CELL_PTR_REG
    inc     %edx              # Increment the counter
    cmp     %ecx, %edx          # Compare the counter to the length of the array
    jl      fill_array       # Jump to fill_array if counter is less than the length
    xor     %edx, %edx          # Reset the cell_ptr to 0
"@
}

/// The entry point of the program.
#[must_use]
pub fn asm_main_init() -> (r: String)
    ensures
        r@ == spec_asm_main_init(),
{
    String::from_str(
        "
.text
.globl _start
_start:
    movl    array_len, %ecx             # Load the length of the array into ecx
    xor     %edx, %edx              # Initialize a counter register to 0

fill_array:
    movb    $0, array(%edx)     # Store 0 to the array at index CELL_PTR_REG
    inc     %edx              # Increment the counter
    cmp     %ecx, %edx          # Compare the counter to the length of the array
    jl      fill_array       # Jump to fill_array if counter is less than the length
    xor     %edx, %edx          # Reset the cell_ptr to 0
",
    )
}

/// The text of the termination fragment.
pub open spec fn spec_asm_exit() -> Seq<char> {
    "
EXIT:                               # Exiting the program
    movl    $1, %eax               # sys_exit syscall number
    xorl    %ebx, %ebx             # exit status 0
    int     $0x80                   # syscall
    "@
}

/// The exit portion of the program.
#[must_use]
pub fn asm_exit() -> (r: String)
    ensures
        r@ == spec_asm_exit(),
{
    String::from_str(
        "
EXIT:                               # Exiting the program
    movl    $1, %eax               # sys_exit syscall number
    xorl    %ebx, %ebx             # exit status 0
    int     $0x80                   # syscall
    ",
    )
}

/// The text of the input-prompt string declaration.
pub open spec fn spec_asm_stdin_init() -> Seq<char> {
    "input_prompt:   .asciz \"Enter a character: \"        # Prompt for user
    "@
}

/// The prompt declaration, emitted only when the program reads input.
pub fn asm_stdin_init() -> (r: String)
    ensures
        r@ == spec_asm_stdin_init(),
{
    String::from_str(
        "input_prompt:   .asciz \"Enter a character: \"        # Prompt for user
    ",
    )
}

// ---------------------------------------------------------------------
// Tape addressing.
// ---------------------------------------------------------------------

/// The text that computes the address of the current cell into `%ebx`.
pub open spec fn spec_asm_get_index_mem_offset() -> Seq<char> {
    "lea     array(%edx), %ebx"@
}

/// Load the address of the tape cell at index `%edx` into `%ebx`.
fn asm_get_index_mem_offset() -> (r: String)
    ensures
        r@ == spec_asm_get_index_mem_offset(),
{
    String::from_str("lea     array(%edx), %ebx")
}

/// The text that loads the current cell's value into `%eax`.
pub open spec fn spec_asm_extract_at_index() -> Seq<char> {
    "
    "@ + spec_asm_get_index_mem_offset() + "
    mov     (%ebx), %eax"@
}

/// Extract the value at index `%edx` into `%eax`.
fn asm_extract_at_index() -> (r: String)
    ensures
        r@ == spec_asm_extract_at_index(),
{
    let mut s = String::from_str(
        "
    ",
    );
    let offset = asm_get_index_mem_offset();
    s.append(offset.as_str());
    s.append(
        "
    mov     (%ebx), %eax",
    );
    s
}

/// The text that stores `%eax` back to the cell whose address is in `%ebx`.
pub open spec fn spec_asm_store_to_index() -> Seq<char> {
    "mov    %eax, (%ebx)"@
}

/// Store the value in `%eax` to the memory located at `%ebx`.
fn asm_store_to_index() -> (r: String)
    ensures
        r@ == spec_asm_store_to_index(),
{
    String::from_str("mov    %eax, (%ebx)")
}

// ---------------------------------------------------------------------
// Pointer and cell arithmetic.
// ---------------------------------------------------------------------

/// The text that moves the cell pointer by `amount` using instruction
/// `instr` (`add` or `sub`).
pub open spec fn spec_asm_offset_cell_ptr(instr: Seq<char>, amount: nat) -> Seq<char> {
    "
    "@ + instr + "      $"@ + dec_digits(amount) + ", %edx \n"@
}

/// Apply an offset to the cell pointer.
fn asm_offset_cell_ptr(instr: &str, amount: usize) -> (r: String)
    ensures
        r@ == spec_asm_offset_cell_ptr(instr@, amount as nat),
{
    let mut s = String::from_str(
        "
    ",
    );
    s.append(instr);
    s.append("      $");
    let d = dec_string(amount);
    s.append(d.as_str());
    s.append(", %edx \n");
    s
}

/// The text that changes the current cell's value by `amount` using
/// instruction `instr` (`add` or `sub`).
pub open spec fn spec_asm_modify_cell(instr: Seq<char>, amount: nat) -> Seq<char> {
    "
    "@ + spec_asm_extract_at_index() + "
    "@ + instr + "      $"@ + dec_digits(amount) + ", %eax\n    "@ + spec_asm_store_to_index()
        + "
    "@
}

/// Change the value in the current cell: extract it, adjust it, store it
/// back.
fn asm_modify_cell(instr: &str, amount: usize) -> (r: String)
    ensures
        r@ == spec_asm_modify_cell(instr@, amount as nat),
{
    let mut s = String::from_str(
        "
    ",
    );
    let extract = asm_extract_at_index();
    s.append(extract.as_str());
    s.append(
        "
    ",
    );
    s.append(instr);
    s.append("      $");
    let d = dec_string(amount);
    s.append(d.as_str());
    s.append(", %eax\n    ");
    let store = asm_store_to_index();
    s.append(store.as_str());
    s.append(
        "
    ",
    );
    s
}

/// The text of a pointer step forward by `offset`.
pub open spec fn spec_asm_cell_ptr_increment(offset: nat) -> Seq<char> {
    spec_asm_offset_cell_ptr("add"@, offset)
}

/// Increment the cell pointer by `offset`.
pub fn asm_cell_ptr_increment(offset: usize) -> (r: String)
    ensures
        r@ == spec_asm_cell_ptr_increment(offset as nat),
{
    asm_offset_cell_ptr("add", offset)
}

/// The text of a pointer step backward by `offset`.
pub open spec fn spec_asm_cell_ptr_decrement(offset: nat) -> Seq<char> {
    spec_asm_offset_cell_ptr("sub"@, offset)
}

/// Decrement the cell pointer by `offset`.
pub fn asm_cell_ptr_decrement(offset: usize) -> (r: String)
    ensures
        r@ == spec_asm_cell_ptr_decrement(offset as nat),
{
    asm_offset_cell_ptr("sub", offset)
}

/// The text that raises the current cell's value by `offset`.
pub open spec fn spec_asm_cell_increment(offset: nat) -> Seq<char> {
    spec_asm_modify_cell("add"@, offset)
}

/// Increment the value in the current cell by `offset`.
pub fn asm_cell_increment(offset: usize) -> (r: String)
    ensures
        r@ == spec_asm_cell_increment(offset as nat),
{
    asm_modify_cell("add", offset)
}

/// The text that lowers the current cell's value by `offset`.
pub open spec fn spec_asm_cell_decrement(offset: nat) -> Seq<char> {
    spec_asm_modify_cell("sub"@, offset)
}

/// Decrement the value in the current cell by `offset`.
pub fn asm_cell_decrement(offset: usize) -> (r: String)
    ensures
        r@ == spec_asm_cell_decrement(offset as nat),
{
    asm_modify_cell("sub", offset)
}

// ---------------------------------------------------------------------
// Input and output.
// ---------------------------------------------------------------------

/// The two syscalls the emitted program uses, by number: write is 4 and
/// read is 3.
enum SysCall {
    Write,
    Read,
}

/// The file descriptors the emitted program uses, by number: standard
/// output is 1 and standard input is 0.
enum FileDescriptor {
    StdOut,
    StdIn,
}

/// The decimal text of a syscall number.
pub open spec fn spec_sys_call_num(write: bool) -> Seq<char> {
    if write {
        "4"@
    } else {
        "3"@
    }
}

/// The decimal text of a file descriptor number.
pub open spec fn spec_fd_num(stdout: bool) -> Seq<char> {
    if stdout {
        "1"@
    } else {
        "0"@
    }
}

/// The text that loads the prompt's address into `%ecx` for a syscall.
pub open spec fn spec_asm_init_ecx_for_sys_call_prompt() -> Seq<char> {
    "mov     $input_prompt, %ecx                  # Moves the address for prompt"@
}

/// Give `%ecx` the address of the prompt for a syscall.
fn asm_init_ecx_for_sys_call_prompt() -> (r: String)
    ensures
        r@ == spec_asm_init_ecx_for_sys_call_prompt(),
{
    String::from_str("mov     $input_prompt, %ecx                  # Moves the address for prompt")
}

/// The text that loads the current cell's address into `%ecx` for a
/// syscall.
pub open spec fn spec_asm_init_ecx_for_sys_call_index() -> Seq<char> {
    spec_asm_get_index_mem_offset()
        + "          # Read Get the address of the Character to Print\n    mov     %ebx, %ecx                  # Moves the address for printing"@
}

/// Give `%ecx` the address of the character at the current cell for a
/// syscall.
fn asm_init_ecx_for_sys_call_index() -> (r: String)
    ensures
        r@ == spec_asm_init_ecx_for_sys_call_index(),
{
    let mut s = asm_get_index_mem_offset();
    s.append(
        "          # Read Get the address of the Character to Print\n    mov     %ebx, %ecx                  # Moves the address for printing",
    );
    s
}

/// The text of one syscall: save the reusable roles, point `%ecx` at the
/// buffer, set call number, file descriptor and length, trap, restore.
pub open spec fn spec_asm_sys_call(write: bool, stdout: bool, is_prompt: bool) -> Seq<char> {
    "\n    # "@ + (if is_prompt {
        "Prompt user for input"@
    } else {
        "Print Character at index"@
    }) + "\n    "@ + spec_save_reg() + "\n    "@ + (if is_prompt {
        spec_asm_init_ecx_for_sys_call_prompt()
    } else {
        spec_asm_init_ecx_for_sys_call_index()
    }) + "\n    movl    $"@ + spec_sys_call_num(write)
        + ", %eax                 # sys_write syscall number\n    movl    $"@ + spec_fd_num(stdout)
        + ", %ebx                 # file descriptor for stdout\n    movl    $"@ + (if is_prompt {
        "19"@
    } else {
        "1"@
    }) + ", %edx                 # length of the character\n    int     $0x80                    # syscall\n    "@
        + spec_restore_reg() + "\n    "@
}

/// One syscall-bearing fragment, bracketed by the save/restore of the
/// reusable register roles.
fn asm_sys_call(sys_call: SysCall, file_descriptor: FileDescriptor, is_prompt: bool) -> (r: String)
    ensures
        r@ == spec_asm_sys_call(
            sys_call is Write,
            file_descriptor is StdOut,
            is_prompt,
        ),
{
    let mut s = String::from_str("\n    # ");
    if is_prompt {
        s.append("Prompt user for input");
    } else {
        s.append("Print Character at index");
    }
    s.append("\n    ");
    let save = save_reg();
    s.append(save.as_str());
    s.append("\n    ");
    if is_prompt {
        let init = asm_init_ecx_for_sys_call_prompt();
        s.append(init.as_str());
    } else {
        let init = asm_init_ecx_for_sys_call_index();
        s.append(init.as_str());
    }
    s.append("\n    movl    $");
    match sys_call {
        SysCall::Write => s.append("4"),
        SysCall::Read => s.append("3"),
    }
    s.append(", %eax                 # sys_write syscall number\n    movl    $");
    match file_descriptor {
        FileDescriptor::StdOut => s.append("1"),
        FileDescriptor::StdIn => s.append("0"),
    }
    s.append(", %ebx                 # file descriptor for stdout\n    movl    $");
    if is_prompt {
        s.append("19");
    } else {
        s.append("1");
    }
    s.append(", %edx                 # length of the character\n    int     $0x80                    # syscall\n    ");
    let restore = restore_reg();
    s.append(restore.as_str());
    s.append("\n    ");
    s
}

/// The text that writes the current cell's byte to standard output.
pub open spec fn spec_asm_print_cell() -> Seq<char> {
    "\n    "@ + spec_asm_sys_call(true, true, false) + "\n    "@
}

/// Print the byte of the current cell.
pub fn asm_print_cell() -> (r: String)
    ensures
        r@ == spec_asm_print_cell(),
{
    let mut s = String::from_str("\n    ");
    let call = asm_sys_call(SysCall::Write, FileDescriptor::StdOut, false);
    s.append(call.as_str());
    s.append("\n    ");
    s
}

/// The text that prompts on standard output and reads one byte from
/// standard input into the current cell.
pub open spec fn spec_asm_read_to_cell() -> Seq<char> {
    "\n    "@ + spec_asm_sys_call(true, true, true) + "\n    "@ + spec_asm_sys_call(
        false,
        false,
        false,
    ) + "\n    "@
}

/// Prompt the user, then read a character from the console into the current
/// cell.
pub fn asm_read_to_cell() -> (r: String)
    ensures
        r@ == spec_asm_read_to_cell(),
{
    let mut s = String::from_str("\n    ");
    let prompt = asm_sys_call(SysCall::Write, FileDescriptor::StdOut, true);
    s.append(prompt.as_str());
    s.append("\n    ");
    let read = asm_sys_call(SysCall::Read, FileDescriptor::StdIn, false);
    s.append(read.as_str());
    s.append("\n    ");
    s
}

// ---------------------------------------------------------------------
// Loops.
// ---------------------------------------------------------------------

/// The text of a loop's label, parameterized by nesting level and loop
/// identifier.
pub open spec fn spec_asm_loop_label(level: nat, count: nat) -> Seq<char> {
    "LOOP_L"@ + dec_digits(level) + "_C"@ + dec_digits(count)
}

/// The template name of a loop.
pub fn asm_loop_label(level: usize, count: usize) -> (r: String)
    ensures
        r@ == spec_asm_loop_label(level as nat, count as nat),
{
    let mut s = String::from_str("LOOP_L");
    let l = dec_string(level);
    s.append(l.as_str());
    s.append("_C");
    let c = dec_string(count);
    s.append(c.as_str());
    s
}

/// The text of a loop's continuation label.
pub open spec fn spec_asm_loop_ret(level: nat, count: nat) -> Seq<char> {
    spec_asm_loop_label(level, count) + "_RET"@
}

/// The name of the label control returns to after the loop finishes.
fn asm_loop_ret(level: usize, count: usize) -> (r: String)
    ensures
        r@ == spec_asm_loop_ret(level as nat, count as nat),
{
    let mut s = asm_loop_label(level, count);
    s.append("_RET");
    s
}

/// The text that opens a loop's body with its label.
pub open spec fn spec_asm_loop_name(level: nat, count: nat) -> Seq<char> {
    "\n"@ + spec_asm_loop_label(level, count) + ":"@
}

/// The labelled head of a loop body.
pub fn asm_loop_name(level: usize, count: usize) -> (r: String)
    ensures
        r@ == spec_asm_loop_name(level as nat, count as nat),
{
    let mut s = String::from_str("\n");
    let label = asm_loop_label(level, count);
    s.append(label.as_str());
    s.append(":");
    s
}

/// The text of a loop's call site: a jump to the loop's entry label,
/// followed by the continuation label control returns to.
pub open spec fn spec_asm_loop_call(level: nat, count: nat) -> Seq<char> {
    "\n    jmp     "@ + spec_asm_loop_label(level, count) + "\n    "@ + spec_asm_loop_ret(
        level,
        count,
    ) + ":\n    "@
}

/// Call a loop and place the label to jump back to when it is done.
pub fn asm_loop_call(level: usize, count: usize) -> (r: String)
    ensures
        r@ == spec_asm_loop_call(level as nat, count as nat),
{
    let mut s = String::from_str("\n    jmp     ");
    let label = asm_loop_label(level, count);
    s.append(label.as_str());
    s.append("\n    ");
    let ret = asm_loop_ret(level, count);
    s.append(ret.as_str());
    s.append(":\n    ");
    s
}

/// The text of a loop's tail: reread the current cell, jump back to the
/// loop's entry label while it is nonzero, and fall through to the
/// continuation label otherwise.
pub open spec fn spec_asm_loop_end(level: nat, count: nat) -> Seq<char> {
    "\n    # Check if current index is zero\n    "@ + spec_asm_extract_at_index()
        + "\n    cmp     $0, %eax\n    jne     "@ + spec_asm_loop_label(level, count)
        + "\n    # End loop if curr index is zero\n    jmp "@ + spec_asm_loop_ret(level, count)
        + "\n    "@
}

/// The end of a loop, with the check deciding another round or the return.
pub fn asm_loop_end(level: usize, count: usize) -> (r: String)
    ensures
        r@ == spec_asm_loop_end(level as nat, count as nat),
{
    let mut s = String::from_str("\n    # Check if current index is zero\n    ");
    let extract = asm_extract_at_index();
    s.append(extract.as_str());
    s.append("\n    cmp     $0, %eax\n    jne     ");
    let label = asm_loop_label(level, count);
    s.append(label.as_str());
    s.append("\n    # End loop if curr index is zero\n    jmp ");
    let ret = asm_loop_ret(level, count);
    s.append(ret.as_str());
    s.append("\n    ");
    s
}

// ---------------------------------------------------------------------
// Extra.
// ---------------------------------------------------------------------

/// The text of the diagnostic fragment that prints the whole tape.
pub open spec fn spec_asm_debug_memory() -> Seq<char> {
    "
DEBUG_PRINT_CELL_MEMORY:        # Printing the array
    movl    $4, %eax              # sys_write syscall number
    movl    $1, %ebx              # file descriptor for stdout
    movl    $array, %ecx              # pointer to the array
    movl    array_len, %edx               # length of the array
    int     $0x80                   # syscall
    "@
}

/// Print out all the characters of the tape.
pub fn asm_debug_memory() -> (r: String)
    ensures
        r@ == spec_asm_debug_memory(),
{
    String::from_str(
        "
DEBUG_PRINT_CELL_MEMORY:        # Printing the array
    movl    $4, %eax              # sys_write syscall number
    movl    $1, %ebx              # file descriptor for stdout
    movl    $array, %ecx              # pointer to the array
    movl    array_len, %edx               # length of the array
    int     $0x80                   # syscall
    ",
    )
}

} // verus!
