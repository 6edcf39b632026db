use fpga_arch_viewer::samples::SampleArchitecture;

#[test]
fn samples_are_the_three_architectures_in_order() {
    let all = SampleArchitecture::all();
    let names: Vec<&str> = all.iter().map(|s| s.name).collect();
    assert_eq!(names, vec!["MCNC Architecture", "VTR Flagship Architecture", "Koios Architecture"]);
    assert_eq!(all[0].file_name, "k6_frac_N10_40nm.xml");
    assert_eq!(all[1].file_name, "k6_frac_N10_frac_chain_mem32K_40nm.xml");
    assert_eq!(all[2].file_name, "k6FracN10LB_mem20K_complexDSP_customSB_22nm.xml");
}
