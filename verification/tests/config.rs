use minio_xml_validator::config::{
    AppConfig, MinioConfig, PipelineConfig, PipelineSettings, ServerConfig,
};

fn instance(name: &str) -> MinioConfig {
    MinioConfig {
        name: name.to_owned(),
        endpoint: "http://x:9000".to_owned(),
        access_key: "a".to_owned(),
        secret_key: "s".to_owned(),
        region: None,
        secure: None,
    }
}

fn app_config(pipeline: Option<PipelineSettings>) -> AppConfig {
    AppConfig {
        server: ServerConfig { listen_addr: "0.0.0.0:50051".to_owned() },
        pipeline,
        minio: vec![instance("x")],
    }
}

#[test]
fn pipeline_config_defaults() {
    let pc = app_config(None).pipeline_config();

    assert_eq!(pc.thread_count, None);
    assert_eq!(pc.buf_reader_capacity, 64 * 1024);
    assert_eq!(pc.diagnostics_buffer_size, 256);
}

#[test]
fn pipeline_config_overrides() {
    let pc = app_config(Some(PipelineSettings {
        thread_count: Some(8),
        buf_reader_capacity: Some(1024),
        diagnostics_buffer_size: None,
    }))
    .pipeline_config();

    assert_eq!(pc.thread_count, Some(8));
    assert_eq!(pc.buf_reader_capacity, 1024);
    assert_eq!(pc.diagnostics_buffer_size, 256);
}

#[test]
fn pipeline_config_keeps_all_overrides() {
    let pc = app_config(Some(PipelineSettings {
        thread_count: Some(2),
        buf_reader_capacity: Some(32768),
        diagnostics_buffer_size: Some(128),
    }))
    .pipeline_config();

    assert_eq!(
        pc,
        PipelineConfig {
            thread_count: Some(2),
            buf_reader_capacity: 32768,
            diagnostics_buffer_size: 128,
        }
    );
}

#[test]
fn empty_overrides_are_the_defaults() {
    let pc = app_config(Some(PipelineSettings {
        thread_count: None,
        buf_reader_capacity: None,
        diagnostics_buffer_size: None,
    }))
    .pipeline_config();

    assert_eq!(pc, PipelineConfig::default());
}
