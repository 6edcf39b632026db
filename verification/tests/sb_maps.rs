use fpga_arch_viewer::sb_maps::{parse_sb_maps_yaml_from_string, parse_sb_pattern_val, SBMapTemplate, SBPatternVal};

    #[test]
    fn doc_example() -> Result<(), String> {
        let s = "
SB_MAPS:
   SB_0__*_: null
   SB_*__0_: null
   SB_1__*_: sb_perimeter.csv
   SB_*__1_: sb_perimeter.csv
   SB_[2:10:2]__*_: sb_dsp.csv
   SB_*__*_: sb_main.csv
";
        let sb_maps = parse_sb_maps_yaml_from_string(s)?;

        assert_eq!(sb_maps.patterns().len(), 6);

        assert_eq!(
            sb_maps.patterns()[0].pattern.x_pattern,
            SBPatternVal::Constant { val: 0 }
        );
        assert_eq!(
            sb_maps.patterns()[0].pattern.y_pattern,
            SBPatternVal::Wildcard
        );
        assert_eq!(sb_maps.patterns()[0].template, SBMapTemplate::Null);

        assert_eq!(
            sb_maps.patterns()[1].pattern.x_pattern,
            SBPatternVal::Wildcard
        );
        assert_eq!(
            sb_maps.patterns()[1].pattern.y_pattern,
            SBPatternVal::Constant { val: 0 }
        );
        assert_eq!(sb_maps.patterns()[1].template, SBMapTemplate::Null);

        assert_eq!(
            sb_maps.patterns()[2].pattern.x_pattern,
            SBPatternVal::Constant { val: 1 }
        );
        assert_eq!(
            sb_maps.patterns()[2].pattern.y_pattern,
            SBPatternVal::Wildcard
        );
        assert_eq!(
            sb_maps.patterns()[2].template,
            SBMapTemplate::File {
                file_name: "sb_perimeter.csv".to_string()
            }
        );

        assert_eq!(
            sb_maps.patterns()[3].pattern.x_pattern,
            SBPatternVal::Wildcard
        );
        assert_eq!(
            sb_maps.patterns()[3].pattern.y_pattern,
            SBPatternVal::Constant { val: 1 }
        );
        assert_eq!(
            sb_maps.patterns()[3].template,
            SBMapTemplate::File {
                file_name: "sb_perimeter.csv".to_string()
            }
        );

        assert_eq!(
            sb_maps.patterns()[4].pattern.x_pattern,
            SBPatternVal::Range {
                start: 2,
                end: 10,
                step: 2
            }
        );
        assert_eq!(
            sb_maps.patterns()[4].pattern.y_pattern,
            SBPatternVal::Wildcard
        );
        assert_eq!(
            sb_maps.patterns()[4].template,
            SBMapTemplate::File {
                file_name: "sb_dsp.csv".to_string()
            }
        );

        assert_eq!(
            sb_maps.patterns()[5].pattern.x_pattern,
            SBPatternVal::Wildcard
        );
        assert_eq!(
            sb_maps.patterns()[5].pattern.y_pattern,
            SBPatternVal::Wildcard
        );
        assert_eq!(
            sb_maps.patterns()[5].template,
            SBMapTemplate::File {
                file_name: "sb_main.csv".to_string()
            }
        );

        // From the first 2 templates, these rows should be null.
        for i in 0..10 {
            assert_eq!(
                *sb_maps
                    .get_sb_template(i, 0)
                    .expect("template should match"),
                SBMapTemplate::Null
            );
            assert_eq!(
                *sb_maps
                    .get_sb_template(0, i)
                    .expect("template should match"),
                SBMapTemplate::Null
            );
        }
        // From the following 2 templates, these should be perimeter.
        for i in 1..10 {
            assert_eq!(
                *sb_maps
                    .get_sb_template(i, 1)
                    .expect("template should match"),
                SBMapTemplate::File {
                    file_name: "sb_perimeter.csv".to_string()
                }
            );
            assert_eq!(
                *sb_maps
                    .get_sb_template(1, i)
                    .expect("template should match"),
                SBMapTemplate::File {
                    file_name: "sb_perimeter.csv".to_string()
                }
            );
        }

        for i in 2..10 {
            for j in (2..=10).step_by(2) {
                // From the dsp pattern.
                assert_eq!(
                    *sb_maps
                        .get_sb_template(j, i)
                        .expect("template should match"),
                    SBMapTemplate::File {
                        file_name: "sb_dsp.csv".to_string()
                    }
                );
                // Everywhere else.
                assert_eq!(
                    *sb_maps
                        .get_sb_template(j + 1, i)
                        .expect("template should match"),
                    SBMapTemplate::File {
                        file_name: "sb_main.csv".to_string()
                    }
                );
            }
        }

        // Check that the end step is working for the dsp.
        for i in 2..10 {
            assert_eq!(
                *sb_maps
                    .get_sb_template(12, i)
                    .expect("template should match"),
                SBMapTemplate::File {
                    file_name: "sb_main.csv".to_string()
                }
            );
        }

        // Check the unique file names all exist.
        let unique_file_names = sb_maps.get_unique_file_names();
        assert_eq!(unique_file_names.len(), 3);
        assert!(unique_file_names.contains(&"sb_perimeter.csv".to_string()));
        assert!(unique_file_names.contains(&"sb_dsp.csv".to_string()));
        assert!(unique_file_names.contains(&"sb_main.csv".to_string()));

        Ok(())
    }

    #[test]
    fn sample_example() -> Result<(), String> {
        let s = "
SB_MAPS:
  # ==================================================
  # Corners
  # ==================================================
  SB_0__0_: null
  SB_0__41_: null
  SB_41__0_: null
  SB_41__41_: null
  # ==================================================
  # IO Switchboxes
  # ==================================================
  SB_\\*__0_: sb_io.csv
  SB_0__\\*_: sb_io.csv
  SB_41__\\*_: sb_io.csv
  SB_\\*__41_: sb_io.csv
  # ==================================================
  # DSP Related Column 1
  # ==================================================
  SB_[6:41:8]__[1:41:4]_: sb_mult_36_0.csv
  SB_[6:41:8]__[2:41:4]_: sb_mult_36_1.csv
  SB_[6:41:8]__[3:41:4]_: sb_mult_36_2.csv
  SB_[6:41:8]__[4:41:4]_: sb_mult_36_3.csv
  # ==================================================
  # BRAM Related
  # ==================================================
  SB_[2:41:8]__[1:41:6]_: sb_memory_0.csv
  SB_[2:41:8]__[2:41:6]_: sb_memory_1.csv
  SB_[2:41:8]__[3:41:6]_: sb_memory_2.csv
  SB_[2:41:8]__[4:41:6]_: sb_memory_3.csv
  SB_[2:41:8]__[5:41:6]_: sb_memory_4.csv
  SB_[2:41:8]__[6:41:6]_: sb_memory_5.csv
  # ==================================================
  SB_\\*__\\*_: sb_main.csv
";
        let sb_maps = parse_sb_maps_yaml_from_string(s)?;

        assert_eq!(sb_maps.patterns().len(), 19);

        // Validate corner patterns
        assert_eq!(
            sb_maps.patterns()[0].pattern.x_pattern,
            SBPatternVal::Constant { val: 0 }
        );
        assert_eq!(
            sb_maps.patterns()[0].pattern.y_pattern,
            SBPatternVal::Constant { val: 0 }
        );
        assert_eq!(sb_maps.patterns()[0].template, SBMapTemplate::Null);

        assert_eq!(
            sb_maps.patterns()[1].pattern.x_pattern,
            SBPatternVal::Constant { val: 0 }
        );
        assert_eq!(
            sb_maps.patterns()[1].pattern.y_pattern,
            SBPatternVal::Constant { val: 41 }
        );
        assert_eq!(sb_maps.patterns()[1].template, SBMapTemplate::Null);

        assert_eq!(
            sb_maps.patterns()[2].pattern.x_pattern,
            SBPatternVal::Constant { val: 41 }
        );
        assert_eq!(
            sb_maps.patterns()[2].pattern.y_pattern,
            SBPatternVal::Constant { val: 0 }
        );
        assert_eq!(sb_maps.patterns()[2].template, SBMapTemplate::Null);

        assert_eq!(
            sb_maps.patterns()[3].pattern.x_pattern,
            SBPatternVal::Constant { val: 41 }
        );
        assert_eq!(
            sb_maps.patterns()[3].pattern.y_pattern,
            SBPatternVal::Constant { val: 41 }
        );
        assert_eq!(sb_maps.patterns()[3].template, SBMapTemplate::Null);

        // Validate IO edge patterns
        assert_eq!(
            sb_maps.patterns()[4].pattern.x_pattern,
            SBPatternVal::Wildcard
        );
        assert_eq!(
            sb_maps.patterns()[4].pattern.y_pattern,
            SBPatternVal::Constant { val: 0 }
        );
        assert_eq!(
            sb_maps.patterns()[4].template,
            SBMapTemplate::File {
                file_name: "sb_io.csv".to_string()
            }
        );

        assert_eq!(
            sb_maps.patterns()[5].pattern.x_pattern,
            SBPatternVal::Constant { val: 0 }
        );
        assert_eq!(
            sb_maps.patterns()[5].pattern.y_pattern,
            SBPatternVal::Wildcard
        );
        assert_eq!(
            sb_maps.patterns()[5].template,
            SBMapTemplate::File {
                file_name: "sb_io.csv".to_string()
            }
        );

        assert_eq!(
            sb_maps.patterns()[6].pattern.x_pattern,
            SBPatternVal::Constant { val: 41 }
        );
        assert_eq!(
            sb_maps.patterns()[6].pattern.y_pattern,
            SBPatternVal::Wildcard
        );
        assert_eq!(
            sb_maps.patterns()[6].template,
            SBMapTemplate::File {
                file_name: "sb_io.csv".to_string()
            }
        );

        assert_eq!(
            sb_maps.patterns()[7].pattern.x_pattern,
            SBPatternVal::Wildcard
        );
        assert_eq!(
            sb_maps.patterns()[7].pattern.y_pattern,
            SBPatternVal::Constant { val: 41 }
        );
        assert_eq!(
            sb_maps.patterns()[7].template,
            SBMapTemplate::File {
                file_name: "sb_io.csv".to_string()
            }
        );

        // Validate DSP patterns
        for i in 0..4 {
            assert_eq!(
                sb_maps.patterns()[8 + i].pattern.x_pattern,
                SBPatternVal::Range {
                    start: 6,
                    end: 41,
                    step: 8
                }
            );
            assert_eq!(
                sb_maps.patterns()[8 + i].pattern.y_pattern,
                SBPatternVal::Range {
                    start: (1 + i),
                    end: 41,
                    step: 4
                }
            );
            assert_eq!(
                sb_maps.patterns()[8 + i].template,
                SBMapTemplate::File {
                    file_name: format!("sb_mult_36_{}.csv", i)
                }
            );
        }

        // Validate BRAM patterns
        for i in 0..6 {
            assert_eq!(
                sb_maps.patterns()[12 + i].pattern.x_pattern,
                SBPatternVal::Range {
                    start: 2,
                    end: 41,
                    step: 8
                }
            );
            assert_eq!(
                sb_maps.patterns()[12 + i].pattern.y_pattern,
                SBPatternVal::Range {
                    start: (1 + i),
                    end: 41,
                    step: 6
                }
            );
            assert_eq!(
                sb_maps.patterns()[12 + i].template,
                SBMapTemplate::File {
                    file_name: format!("sb_memory_{}.csv", i)
                }
            );
        }

        // Validate catch-all pattern
        assert_eq!(
            sb_maps.patterns()[18].pattern.x_pattern,
            SBPatternVal::Wildcard
        );
        assert_eq!(
            sb_maps.patterns()[18].pattern.y_pattern,
            SBPatternVal::Wildcard
        );
        assert_eq!(
            sb_maps.patterns()[18].template,
            SBMapTemplate::File {
                file_name: "sb_main.csv".to_string()
            }
        );

        // Test get_sb_template for a 41x41 device
        // Corners should return null
        assert_eq!(
            *sb_maps
                .get_sb_template(0, 0)
                .expect("template should match"),
            SBMapTemplate::Null
        );
        assert_eq!(
            *sb_maps
                .get_sb_template(0, 41)
                .expect("template should match"),
            SBMapTemplate::Null
        );
        assert_eq!(
            *sb_maps
                .get_sb_template(41, 0)
                .expect("template should match"),
            SBMapTemplate::Null
        );
        assert_eq!(
            *sb_maps
                .get_sb_template(41, 41)
                .expect("template should match"),
            SBMapTemplate::Null
        );

        // IO edges should return sb_io.csv
        assert_eq!(
            *sb_maps
                .get_sb_template(5, 0)
                .expect("template should match"),
            SBMapTemplate::File {
                file_name: "sb_io.csv".to_string()
            }
        );
        assert_eq!(
            *sb_maps
                .get_sb_template(0, 5)
                .expect("template should match"),
            SBMapTemplate::File {
                file_name: "sb_io.csv".to_string()
            }
        );
        assert_eq!(
            *sb_maps
                .get_sb_template(41, 20)
                .expect("template should match"),
            SBMapTemplate::File {
                file_name: "sb_io.csv".to_string()
            }
        );
        assert_eq!(
            *sb_maps
                .get_sb_template(15, 41)
                .expect("template should match"),
            SBMapTemplate::File {
                file_name: "sb_io.csv".to_string()
            }
        );

        // DSP positions should return sb_mult files
        for x in (6..=40).step_by(8) {
            for y in (1..=40).step_by(4) {
                assert_eq!(
                    *sb_maps
                        .get_sb_template(x, y)
                        .expect("template should match"),
                    SBMapTemplate::File {
                        file_name: "sb_mult_36_0.csv".to_string()
                    }
                );
                assert_eq!(
                    *sb_maps
                        .get_sb_template(x, y + 1)
                        .expect("template should match"),
                    SBMapTemplate::File {
                        file_name: "sb_mult_36_1.csv".to_string()
                    }
                );
                assert_eq!(
                    *sb_maps
                        .get_sb_template(x, y + 2)
                        .expect("template should match"),
                    SBMapTemplate::File {
                        file_name: "sb_mult_36_2.csv".to_string()
                    }
                );
                assert_eq!(
                    *sb_maps
                        .get_sb_template(x, y + 3)
                        .expect("template should match"),
                    SBMapTemplate::File {
                        file_name: "sb_mult_36_3.csv".to_string()
                    }
                );
            }
        }

        // BRAM positions should return sb_memory files
        for x in (2..=40).step_by(8) {
            for y in (1..=31).step_by(6) {
                assert_eq!(
                    *sb_maps
                        .get_sb_template(x, y)
                        .expect("template should match"),
                    SBMapTemplate::File {
                        file_name: "sb_memory_0.csv".to_string()
                    }
                );
                assert_eq!(
                    *sb_maps
                        .get_sb_template(x, y + 1)
                        .expect("template should match"),
                    SBMapTemplate::File {
                        file_name: "sb_memory_1.csv".to_string()
                    }
                );
                assert_eq!(
                    *sb_maps
                        .get_sb_template(x, y + 2)
                        .expect("template should match"),
                    SBMapTemplate::File {
                        file_name: "sb_memory_2.csv".to_string()
                    }
                );
                assert_eq!(
                    *sb_maps
                        .get_sb_template(x, y + 3)
                        .expect("template should match"),
                    SBMapTemplate::File {
                        file_name: "sb_memory_3.csv".to_string()
                    }
                );
                assert_eq!(
                    *sb_maps
                        .get_sb_template(x, y + 4)
                        .expect("template should match"),
                    SBMapTemplate::File {
                        file_name: "sb_memory_4.csv".to_string()
                    }
                );
                assert_eq!(
                    *sb_maps
                        .get_sb_template(x, y + 5)
                        .expect("template should match"),
                    SBMapTemplate::File {
                        file_name: "sb_memory_5.csv".to_string()
                    }
                );
            }
        }

        // Regular interior positions should return sb_main.csv (catch-all)
        assert_eq!(
            *sb_maps
                .get_sb_template(5, 5)
                .expect("template should match"),
            SBMapTemplate::File {
                file_name: "sb_main.csv".to_string()
            }
        );
        assert_eq!(
            *sb_maps
                .get_sb_template(15, 20)
                .expect("template should match"),
            SBMapTemplate::File {
                file_name: "sb_main.csv".to_string()
            }
        );
        assert_eq!(
            *sb_maps
                .get_sb_template(35, 35)
                .expect("template should match"),
            SBMapTemplate::File {
                file_name: "sb_main.csv".to_string()
            }
        );

        // Check the unique file names all exist.
        let unique_file_names = sb_maps.get_unique_file_names();
        assert_eq!(unique_file_names.len(), 12);
        assert!(unique_file_names.contains(&"sb_io.csv".to_string()));
        assert!(unique_file_names.contains(&"sb_mult_36_0.csv".to_string()));
        assert!(unique_file_names.contains(&"sb_mult_36_1.csv".to_string()));
        assert!(unique_file_names.contains(&"sb_mult_36_2.csv".to_string()));
        assert!(unique_file_names.contains(&"sb_mult_36_3.csv".to_string()));
        assert!(unique_file_names.contains(&"sb_memory_0.csv".to_string()));
        assert!(unique_file_names.contains(&"sb_memory_1.csv".to_string()));
        assert!(unique_file_names.contains(&"sb_memory_2.csv".to_string()));
        assert!(unique_file_names.contains(&"sb_memory_3.csv".to_string()));
        assert!(unique_file_names.contains(&"sb_memory_4.csv".to_string()));
        assert!(unique_file_names.contains(&"sb_memory_5.csv".to_string()));
        assert!(unique_file_names.contains(&"sb_main.csv".to_string()));

        Ok(())
    }

#[test]
fn printed_coordinate_parses_back() {
    for n in [0usize, 7, 10, 41, 12345, usize::MAX] {
        assert_eq!(parse_sb_pattern_val(&n.to_string()), Ok(SBPatternVal::Constant { val: n }));
    }
}
