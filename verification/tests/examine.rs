use la_inst::{
    changed_registers, colored_output, register_fields, ChangedRegister, RegisterInfo,
    RegisterSet,
};

#[test]
fn fields_of_an_instruction() {
    // x86inc.b $r1
    assert_eq!(register_fields(0x00008020), (0, 1, 0));
    // addi.d $r3, $r3, -16
    assert_eq!(register_fields(0x02ffc063), (3, 3, 0x10));
    assert_eq!(register_fields(0xffffffff), (31, 31, 31));
}

#[test]
fn changes_are_listed_in_order() {
    let mut info = RegisterInfo::default();
    info.new.gpr[0] = 1; // r0 is never reported
    info.new.gpr[5] = 1;
    info.new.gpr[31] = 1;
    info.new.lasx[0][2] = 1;
    info.new.lbt[4] = 0x80;
    info.new.fcsr = 3; // not listed
    assert_eq!(
        changed_registers(&info),
        vec![
            ChangedRegister::Gpr(5),
            ChangedRegister::Gpr(31),
            ChangedRegister::Lasx(0),
            ChangedRegister::Lbt(4),
        ]
    );
}

#[test]
fn no_changes_for_equal_sets() {
    let regs = RegisterSet::default();
    let info = RegisterInfo { old: regs.clone(), new: regs };
    assert!(changed_registers(&info).is_empty());
}

fn render(text: &str, other: &str, red: bool) -> String {
    let mut out = String::new();
    for (a, b) in text.chars().zip(other.chars()) {
        if a == b || !red {
            out.push(a);
        } else {
            out.push_str(&format!("\x1b[31m{}\x1b[0m", a));
        }
    }
    out
}

#[test]
fn colored_diff_marks_the_differing_characters() {
    let old = format!("{:#018x}", 0x00007fffd2cd0c00u64);
    let new = format!("{:#018x}", 0u64);
    let res = colored_output(&old, &new);
    let expected = |red: bool| {
        format!(
            "OLD={} NEW={}",
            render(&old, &new, red),
            render(&new, &old, red)
        )
    };
    assert!(res == expected(false) || res == expected(true), "{:?}", res);
    assert!(res.starts_with("OLD=0x0000"));
}

#[test]
fn colored_diff_of_equal_values_is_plain() {
    let res = colored_output("[0000000000000001, 0000000000000002]", "[0000000000000001, 0000000000000002]");
    assert_eq!(
        res,
        "OLD=[0000000000000001, 0000000000000002] NEW=[0000000000000001, 0000000000000002]"
    );
}

#[test]
fn change_of_an_lbt_register_on_one_line() {
    // without colours, a change renders as in `LBT 1: OLD=... NEW=...`
    let res = colored_output("0x00007fffd2cd0c00", "0x0000000000000000");
    let plain = "OLD=0x00007fffd2cd0c00 NEW=0x0000000000000000";
    let stripped = res.replace("\x1b[31m", "").replace("\x1b[0m", "");
    assert_eq!(stripped, plain);
}

#[test]
fn swapping_the_values_swaps_the_rendering() {
    let a = "0x00007fffd2cd0c00";
    let b = "0x0000000000000000";
    let ab = colored_output(a, b);
    let ba = colored_output(b, a);
    let (old_ab, new_ab) = ab["OLD=".len()..].split_once(" NEW=").unwrap();
    let (old_ba, new_ba) = ba["OLD=".len()..].split_once(" NEW=").unwrap();
    assert_eq!(old_ab, new_ba);
    assert_eq!(new_ab, old_ba);
}
