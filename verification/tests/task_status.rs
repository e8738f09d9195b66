use actraild::task_status::{parent_pid, read_task_status};

fn lines(text: &str) -> Vec<String> {
    text.lines().map(str::to_string).collect()
}

#[test]
fn task_status_reads_tgid_and_ppid() {
    let status = lines("Name:\tbash\nUmask:\t0022\nState:\tS (sleeping)\nTgid:\t4242\nNgid:\t0\nPid:\t4243\nPPid:\t17\nTracerPid:\t0\n");
    let s = read_task_status(4243, &status).unwrap();
    assert_eq!(s.process_pid, 4242);
    assert_eq!(s.parent_pid, 17);
}

#[test]
fn task_status_errors_name_the_field() {
    let e = read_task_status(9, &lines("Tgid:\tx\nPPid:\t1\n")).unwrap_err();
    assert_eq!(e.code, "command_control_identity");
    assert_eq!(e.message, "parse Tgid for task 9: invalid digit found in string");
    let e = read_task_status(9, &lines("Tgid:\t3\n")).unwrap_err();
    assert_eq!(e.code, "command_control_parent_identity");
    assert_eq!(e.message, "missing PPid for task 9");
    let e = read_task_status(9, &lines("PPid:\t3\n")).unwrap_err();
    assert_eq!(e.message, "missing Tgid for task 9");
    let e = read_task_status(9, &lines("Tgid: 1\nPPid: 99999999999\n")).unwrap_err();
    assert_eq!(e.message, "parse PPid for task 9: number too large to fit in target type");
}

#[test]
fn parent_pid_reads_the_first_ppid_line() {
    assert_eq!(parent_pid(5, &lines("Name:\tsh\nPPid:\t1\nPPid:\t2\n")).unwrap(), 1);
    let e = parent_pid(5, &lines("Name:\tsh\n")).unwrap_err();
    assert_eq!(e.code, "network_control_procfs");
    assert_eq!(e.message, "missing PPid for pid 5");
    assert_eq!(parent_pid(5, &lines("PPid:\t\n")).unwrap_err().message, "parse PPid: cannot parse integer from empty string");
}
