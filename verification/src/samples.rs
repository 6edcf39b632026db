//! The sample architectures offered to explore without loading a file of one's
//! own: their names and the architecture files they come from.
use vstd::prelude::*;

verus! {

/// A sample architecture: the name shown for it and the file of its
/// description (its bytes are read by the program that shows it).
pub struct SampleArchitecture {
    pub name: &'static str,
    pub file_name: &'static str,
}

impl SampleArchitecture {
    /// The samples, in the order they are offered: the MCNC architecture, the VTR
    /// flagship architecture and the Koios architecture.
    pub fn all() -> (r: Vec<SampleArchitecture>)
        ensures
            r@.len() == 3,
            r@[0].name@ == "MCNC Architecture"@,
            r@[0].file_name@ == "k6_frac_N10_40nm.xml"@,
            r@[1].name@ == "VTR Flagship Architecture"@,
            r@[1].file_name@ == "k6_frac_N10_frac_chain_mem32K_40nm.xml"@,
            r@[2].name@ == "Koios Architecture"@,
            r@[2].file_name@ == "k6FracN10LB_mem20K_complexDSP_customSB_22nm.xml"@,
    {
        let mut r: Vec<SampleArchitecture> = Vec::new();
        r.push(SampleArchitecture { name: "MCNC Architecture", file_name: "k6_frac_N10_40nm.xml" });
        r.push(
            SampleArchitecture {
                name: "VTR Flagship Architecture",
                file_name: "k6_frac_N10_frac_chain_mem32K_40nm.xml",
            },
        );
        r.push(
            SampleArchitecture {
                name: "Koios Architecture",
                file_name: "k6FracN10LB_mem20K_complexDSP_customSB_22nm.xml",
            },
        );
        r
    }
}

} // verus!
