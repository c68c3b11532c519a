use skyengine::cpu::ArmCpu;
use skyengine::error::Error;
use skyengine::guest_run::{
    annotate_service_error, run_guest, RunStop, INSTRUCTION_BUDGET, RETURN_SENTINEL,
};
use skyengine::memory::{GuestAddr, GuestMemory, Permissions};
use skyengine::slots::TRAP_BASE;

fn code(instructions: &[u32]) -> GuestMemory {
    let bytes = instructions.iter().flat_map(|i| i.to_le_bytes()).collect();
    let mut memory = GuestMemory::new();
    memory
        .map_bytes(GuestAddr(0x1000), bytes, Permissions::READ_EXECUTE, "code")
        .unwrap();
    memory
}

fn core_at(pc: u32) -> ArmCpu {
    let mut cpu = ArmCpu::new();
    cpu.set_pc(pc);
    cpu.set_register(14, RETURN_SENTINEL);
    cpu
}

#[test]
fn a_guest_function_returns_to_the_sentinel() {
    // mov r0, #42; bx lr
    let mut memory = code(&[0xe3a0_002a, 0xe12f_ff1e]);
    let mut cpu = core_at(0x1000);
    let mut count = 0u64;
    let stop = run_guest(&mut cpu, &mut memory, 0, &mut count).unwrap();
    assert_eq!(stop, RunStop::Returned(42));
    assert_eq!(count, 2);
}

#[test]
fn a_service_trap_stops_the_run() {
    let mut memory = code(&[0xe3a0_002a]);
    let mut cpu = core_at(TRAP_BASE + 5 * 4);
    let mut count = 7u64;
    let stop = run_guest(&mut cpu, &mut memory, 0, &mut count).unwrap();
    assert_eq!(stop, RunStop::Service(5));
    assert_eq!(count, 7);
}

#[test]
fn a_branch_with_link_enters_a_call() {
    // bl +8
    let mut memory = code(&[0xeb00_0000, 0, 0xe12f_ff1e]);
    let mut cpu = core_at(0x1000);
    let mut count = 0u64;
    let stop = run_guest(&mut cpu, &mut memory, 0, &mut count).unwrap();
    assert_eq!(
        stop,
        RunStop::CallEntered { return_to_thumb: false, target_executable: true }
    );
    assert_eq!(count, 1);
    assert_eq!(cpu.pc().0, 0x1008);
    assert_eq!(cpu.register(14), 0x1004);
}

#[test]
fn a_semihosting_exit_stops_the_run() {
    let mut memory = code(&[0xef12_3456]);
    let mut cpu = core_at(0x1000);
    cpu.set_register(0, 0x18);
    let mut count = 0u64;
    let stop = run_guest(&mut cpu, &mut memory, 0, &mut count).unwrap();
    assert_eq!(stop, RunStop::Exited);
    assert_eq!(cpu.take_semihosting_exit_reason(), None);
}

#[test]
fn faults_report_the_pc_and_registers() {
    let mut memory = code(&[0xe3a0_002a]);
    let mut cpu = core_at(0x5000);
    let mut count = 0u64;
    let message = run_guest(&mut cpu, &mut memory, 3, &mut count).unwrap_err().to_string();
    assert!(message.contains(
        " while executing module 3 at PC 0x00005000 (insn=unavailable, cpsr=0x00000000, r0=0x00000000, r1=0x00000000"
    ));
    assert!(message.ends_with(", sp=0x00000000, lr=0xffffff00)"));
}

#[test]
fn the_instruction_budget_is_enforced() {
    let mut memory = code(&[0xe3a0_002a]);
    let mut cpu = core_at(0x1000);
    let mut count = INSTRUCTION_BUDGET;
    let error = run_guest(&mut cpu, &mut memory, 1, &mut count).unwrap_err();
    assert!(matches!(error, Error::ArmFault(_)));
    assert!(error.to_string().starts_with(
        "instruction budget 200000000 exhausted in module 1 at PC 0x00001000 (insn=2a00a0e3, cpsr=0x00000000, r0="
    ));
}

#[test]
fn service_errors_carry_their_call_site() {
    let mut cpu = ArmCpu::new();
    cpu.set_register(0, 1);
    cpu.set_register(14, 0x1234);
    let error = annotate_service_error(Error::Abi("bad".to_string()), 2, 7, &cpu);
    assert_eq!(
        error.to_string(),
        "bad while dispatching module 2 slot 7 at LR 0x00001234 (r0=0x00000001, r1=0x00000000, r2=0x00000000, r3=0x00000000, sp=0x00000000)"
    );
    let error = annotate_service_error(Error::Config("kept".to_string()), 2, 7, &cpu);
    assert_eq!(error.to_string(), "kept");
}
