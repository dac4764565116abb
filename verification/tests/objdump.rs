use la_inst::{inst_from_le_bytes, inst_to_le_bytes, parse_objdump_output, ObjdumpOutputError};

fn objdump_listing(last: &str) -> String {
    format!(
        "\n/tmp/.tmpAbCdEf:     file format binary\n\n\nDisassembly of section .data:\n\n0000000000000000 <.data>:\n{}\n",
        last
    )
}

#[test]
fn decodes_addi_d() {
    let out = objdump_listing("   0:\t02ffc063 \taddi.d      \t$r3, $r3, -16");
    assert_eq!(
        parse_objdump_output(&out),
        Ok(Some("addi.d $r3, $r3, -16".to_string()))
    );
}

#[test]
fn decodes_vpickve2gr_d() {
    let out = objdump_listing("   0:\t72eff00c \tvpickve2gr.d\t$r12, $vr0, 0x0");
    assert_eq!(
        parse_objdump_output(&out),
        Ok(Some("vpickve2gr.d $r12, $vr0, 0x0".to_string()))
    );
}

#[test]
fn word_directive_means_illegal() {
    let out = objdump_listing("   0:\t00000000 \t.word\t\t0x00000000");
    assert_eq!(parse_objdump_output(&out), Ok(None));
}

#[test]
fn empty_output_is_an_error() {
    assert_eq!(
        parse_objdump_output(""),
        Err(ObjdumpOutputError::UnexpectedOutput)
    );
}

#[test]
fn last_line_without_newline_and_crlf() {
    assert_eq!(
        parse_objdump_output("x\n   0:\t00 \tnop"),
        Ok(Some("nop".to_string()))
    );
    assert_eq!(
        parse_objdump_output("x\r\n   0:\t00 \tandi\t$r0, $r0, 0x0\r\n"),
        Ok(Some("andi $r0, $r0, 0x0".to_string()))
    );
}

#[test]
fn short_lines_decode_to_nothing() {
    assert_eq!(parse_objdump_output("no tabs here\n"), Ok(Some(String::new())));
    assert_eq!(parse_objdump_output("\n"), Ok(Some(String::new())));
    assert_eq!(parse_objdump_output("a\tb\n"), Ok(Some(String::new())));
}

#[test]
fn empty_fields_add_no_leading_space() {
    assert_eq!(
        parse_objdump_output("a\tb\t  \tx\t\ty"),
        Ok(Some("x  y".to_string()))
    );
}

#[test]
fn little_endian_bytes() {
    assert_eq!(inst_to_le_bytes(0x02ffc063), [0x63, 0xc0, 0xff, 0x02]);
    assert_eq!(inst_from_le_bytes(&[0x63, 0xc0, 0xff, 0x02]), 0x02ffc063);
    assert_eq!(inst_from_le_bytes(&[0x0c, 0xf0, 0xef, 0x72, 0xff]), 0x72eff00c);
    let inst = 0x38578bbb;
    assert_eq!(inst_from_le_bytes(&inst_to_le_bytes(inst)), inst);
}
