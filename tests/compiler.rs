use shader_compiler::compiler::{EngineError, ShaderCompiler, KEYWORD_REFUSED};
use shader_compiler::spirv::SpirvError;

#[test]
fn handles_are_one_based_and_reuse_lowest_free_slot() {
    let mut c = ShaderCompiler::new();
    assert_eq!(c.create_program(100), 1);
    assert_eq!(c.create_program(200), 2);
    assert_eq!(c.create_program(300), 3);
    assert_eq!(c.delete_program(3), Ok(300));
    assert_eq!(c.delete_program(1), Ok(100));
    assert!(!c.is_live(1));
    assert!(c.is_live(2));
    assert_eq!(c.create_program(400), 1);
    assert_eq!(c.native_program(1), Ok(400));
    assert_eq!(c.native_program(2), Ok(200));
    assert_eq!(c.create_program(500), 3);
    assert_eq!(c.create_program(600), 4);
}

#[test]
fn deleting_twice_is_an_error() {
    let mut c = ShaderCompiler::new();
    let h = c.create_program(7);
    assert_eq!(c.delete_program(h), Ok(7));
    assert_eq!(c.delete_program(h), Err(EngineError::NotLive));
    assert_eq!(c.delete_program(0), Err(EngineError::NotLive));
    assert_eq!(c.delete_program(9), Err(EngineError::NotLive));
}

#[test]
fn link_needs_a_stage_and_records_the_answer() {
    let mut c = ShaderCompiler::new();
    let h = c.create_program(11);
    assert_eq!(c.link_target(h), Err(EngineError::NothingAttached));
    assert_eq!(c.link(h, true), Err(EngineError::NothingAttached));
    assert_eq!(c.add(h, 5), Ok(11));
    assert_eq!(c.link_target(h), Ok(11));
    assert_eq!(c.link(h, true), Ok(true));
    assert_eq!(c.spirv_source(h), Ok(11));
    assert_eq!(c.link(h, false), Ok(false));
    assert_eq!(c.spirv_source(h), Err(EngineError::NotLinked));
    assert_eq!(c.add(h + 1, 5), Err(EngineError::NotLive));
}

#[test]
fn failed_link_empties_spirv_buffer() {
    let mut c = ShaderCompiler::new();
    let h = c.create_program(11);
    c.add(h, 1).unwrap();
    c.link(h, true).unwrap();
    c.get_spirv_for_stage(h, Some(vec![1, 2, 3]));
    assert_eq!(c.get_spirv_size(), 3);
    assert_eq!(c.link(h, false), Ok(false));
    c.get_spirv_for_stage(h, Some(vec![4, 5]));
    assert_eq!(c.get_spirv_size(), 0);
}

#[test]
fn fetch_without_words_empties_buffer() {
    let mut c = ShaderCompiler::new();
    let h = c.create_program(11);
    c.add(h, 1).unwrap();
    c.link(h, true).unwrap();
    c.get_spirv_for_stage(h, Some(vec![9]));
    let mut saved = Vec::new();
    c.save_spirv(&mut saved);
    assert_eq!(saved, vec![9]);
    c.get_spirv_for_stage(h, None);
    assert_eq!(c.get_spirv_size(), 0);
}

#[test]
fn unreserved_keyword_is_refused() {
    let mut c = ShaderCompiler::new();
    assert_eq!(c.enable_keyword("LIT"), Err(EngineError::NotReserved));
    assert_eq!(c.disable_keyword("LIT"), Err(EngineError::NotReserved));
    assert_eq!(c.enable_global_keyword("LIT"), Err(EngineError::NotReserved));
    assert_eq!(c.disable_global_keyword("LIT"), Err(EngineError::NotReserved));
    assert_eq!(c.reserve_keyword("LIT", KEYWORD_REFUSED), Err(EngineError::RegistrationFailed));
    assert_eq!(c.enable_keyword("LIT"), Err(EngineError::NotReserved));
    assert_eq!(c.reserve_keyword("LIT", 3), Ok(()));
    assert_eq!(c.enable_keyword("LIT"), Ok(()));
    assert_eq!(c.disable_global_keyword("LIT"), Ok(()));
    assert_eq!(c.enable_keyword("lit"), Err(EngineError::NotReserved));
}

#[test]
fn keyword_log_appends_one_line_each() {
    let mut c = ShaderCompiler::new();
    let h = c.create_program(1);
    assert_eq!(c.add_keyword(h, "LIT", 0), Ok(()));
    assert_eq!(c.add_keyword(h, "LOD_BIAS", 1), Ok(()));
    assert_eq!(c.add_keyword(h, "BAD", KEYWORD_REFUSED), Err(EngineError::RegistrationFailed));
    assert_eq!(c.keyword_log(h), Ok("LIT\nLOD_BIAS\n".to_string()));
    assert_eq!(c.add_keyword(h + 1, "LIT", 0), Err(EngineError::NotLive));
}

#[test]
fn spirv_buffer_round_trips_through_bytes() {
    let mut c = ShaderCompiler::new();
    let h = c.create_program(1);
    c.add(h, 1).unwrap();
    c.link(h, true).unwrap();
    c.get_spirv_for_stage(h, Some(vec![0x0723_0203, 42]));
    let bytes = c.write_spirv();
    assert_eq!(bytes, vec![0x03, 0x02, 0x23, 0x07, 42, 0, 0, 0]);
    let mut d = ShaderCompiler::new();
    assert_eq!(d.read_spirv(&bytes), Ok(()));
    assert_eq!(d.spirv_words(), &vec![0x0723_0203, 42]);
    assert_eq!(d.read_spirv(&bytes[..7]), Err(SpirvError::TruncatedWord));
    assert_eq!(d.get_spirv_size(), 2);
}

#[test]
fn preamble_is_set_and_cleared() {
    let mut c = ShaderCompiler::new();
    assert_eq!(c.preamble(), &None);
    c.set_preamble("#define X 1\n");
    assert_eq!(c.preamble(), &Some("#define X 1\n".to_string()));
    c.clear_preamble();
    assert_eq!(c.preamble(), &None);
}

#[test]
fn teardown_releases_each_live_program_once() {
    let mut c = ShaderCompiler::new();
    c.create_program(10);
    let h = c.create_program(20);
    c.create_program(30);
    c.delete_program(h).unwrap();
    assert_eq!(c.release_all(), vec![10, 30]);
    assert!(!c.is_live(1) && !c.is_live(3));
    assert_eq!(c.release_all(), Vec::<u64>::new());
}
