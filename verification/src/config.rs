//! Settings of the server, of the validation pipeline and of the MinIO
//! instances.

use vstd::prelude::*;

verus! {

/// The settings of the application.
#[derive(Debug)]
pub struct AppConfig {
    /// gRPC server settings.
    pub server: ServerConfig,
    /// Tuning of the validation pipeline, where there is any.
    pub pipeline: Option<PipelineSettings>,
    /// The MinIO instances.
    pub minio: Vec<MinioConfig>,
}

/// Where the gRPC server listens.
#[derive(Debug)]
pub struct ServerConfig {
    /// Socket address to bind, such as `0.0.0.0:50051`.
    pub listen_addr: String,
}

/// Overrides for the validation pipeline.
#[derive(Debug)]
pub struct PipelineSettings {
    /// Number of worker threads; `None` leaves it to the thread pool.
    pub thread_count: Option<usize>,
    /// Bytes buffered per file.
    pub buf_reader_capacity: Option<usize>,
    /// Diagnostics collected per file before they are handed on.
    pub diagnostics_buffer_size: Option<usize>,
}

/// How to reach one MinIO instance.
#[derive(Debug, Clone)]
pub struct MinioConfig {
    /// Name by which requests refer to the instance.
    pub name: String,
    /// URL of the instance, such as `http://minio:9000`.
    pub endpoint: String,
    /// S3 access key.
    pub access_key: String,
    /// S3 secret key.
    pub secret_key: String,
    /// S3 region; MinIO does not use it.
    pub region: Option<String>,
    /// Whether the endpoint uses TLS; where it does not, certificate errors are
    /// ignored.
    pub secure: Option<bool>,
}

/// The settings that a pipeline runs with.
#[derive(Debug, Clone, Copy, PartialEq, Eq, Structural)]
pub struct PipelineConfig {
    /// Number of worker threads; `None` leaves it to the thread pool.
    pub thread_count: Option<usize>,
    /// Bytes buffered per file.
    pub buf_reader_capacity: usize,
    /// Diagnostics collected per file before they are handed on.
    pub diagnostics_buffer_size: usize,
}

/// Bytes buffered per file where nothing else is set.
pub const DEFAULT_BUF_READER_CAPACITY: usize = 65536;

/// Diagnostics collected per file where nothing else is set.
pub const DEFAULT_DIAGNOSTICS_BUFFER_SIZE: usize = 256;

/// The settings of a pipeline for which nothing is set.
pub open spec fn default_pipeline() -> PipelineConfig {
    PipelineConfig {
        thread_count: None,
        buf_reader_capacity: DEFAULT_BUF_READER_CAPACITY,
        diagnostics_buffer_size: DEFAULT_DIAGNOSTICS_BUFFER_SIZE,
    }
}

impl Default for PipelineConfig {
    fn default() -> (config: Self)
        ensures
            config == default_pipeline(),
            config.thread_count is None,
            config.buf_reader_capacity == 64 * 1024,
            config.diagnostics_buffer_size == 256,
    {
        PipelineConfig {
            thread_count: None,
            buf_reader_capacity: DEFAULT_BUF_READER_CAPACITY,
            diagnostics_buffer_size: DEFAULT_DIAGNOSTICS_BUFFER_SIZE,
        }
    }
}

impl AppConfig {
    /// The settings that the pipeline runs with: the overrides, and the
    /// default for each setting without one.
    pub fn pipeline_config(&self) -> (config: PipelineConfig)
        ensures
            match self.pipeline {
                None => config == default_pipeline(),
                Some(p) => {
                    &&& config.thread_count == p.thread_count
                    &&& config.buf_reader_capacity == (match p.buf_reader_capacity {
                        Some(capacity) => capacity,
                        None => DEFAULT_BUF_READER_CAPACITY,
                    })
                    &&& config.diagnostics_buffer_size == (match p.diagnostics_buffer_size {
                        Some(size) => size,
                        None => DEFAULT_DIAGNOSTICS_BUFFER_SIZE,
                    })
                },
            },
    {
        let defaults = PipelineConfig::default();
        match &self.pipeline {
            Some(p) => PipelineConfig {
                thread_count: p.thread_count,
                buf_reader_capacity: p.buf_reader_capacity.unwrap_or(
                    defaults.buf_reader_capacity,
                ),
                diagnostics_buffer_size: p.diagnostics_buffer_size.unwrap_or(
                    defaults.diagnostics_buffer_size,
                ),
            },
            None => defaults,
        }
    }
}

/// Each setting of the pipeline is the override where there is one, whatever
/// its value, and else the documented default; no setting has a bearing on
/// another.
pub proof fn lemma_overrides_count(app: AppConfig, config: PipelineConfig)
    requires
        call_ensures(AppConfig::pipeline_config, (&app,), config),
    ensures
        app.pipeline is None ==> config.thread_count is None,
        app.pipeline is None ==> config.buf_reader_capacity == 64 * 1024,
        app.pipeline is None ==> config.diagnostics_buffer_size == 256,
        app.pipeline matches Some(p) ==> config.thread_count == p.thread_count,
        app.pipeline matches Some(p) ==> match p.buf_reader_capacity {
            Some(capacity) => config.buf_reader_capacity == capacity,
            None => config.buf_reader_capacity == 64 * 1024,
        },
        app.pipeline matches Some(p) ==> match p.diagnostics_buffer_size {
            Some(size) => config.diagnostics_buffer_size == size,
            None => config.diagnostics_buffer_size == 256,
        },
{
}

/// Settings without a single override are those without any setting.
pub proof fn lemma_empty_overrides_are_none(
    app: AppConfig,
    config: PipelineConfig,
    default: PipelineConfig,
)
    requires
        app.pipeline matches Some(p) ==> p.thread_count is None && p.buf_reader_capacity is None
            && p.diagnostics_buffer_size is None,
        call_ensures(AppConfig::pipeline_config, (&app,), config),
        call_ensures(<PipelineConfig as Default>::default, (), default),
    ensures
        config == default,
{
}

} // verus!
