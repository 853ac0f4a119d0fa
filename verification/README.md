# minio-xml-validator

A gRPC server that downloads XML files from MinIO and validates them. A client
submits a batch of files, each with the name of a MinIO instance and the ID of a
validator, and receives findings as they are made.

The library under `src/` is verified with Verus:

- `config`: the settings, and what the pipeline runs with.
- `storage::client`: the pool of MinIO clients by name.
- `storage::endpoint`: endpoints that the parser of base URLs cannot take.
- `storage::download`: a download, step by step and chunk by chunk, and its
  reader.
- `storage::stream`: the model of a download stream, and what holds of it.
- `diagnostic`, `proto`, `grpc::convert`: findings and messages.
- `registry`, `validators`: the validators and their rules.
- `grpc::service`: the checks on a batch, and the order of its downloads.
- `grpc::responses`: the stream that answers a batch.

A response is a finding or the marker of a file. Each error of the pipeline has a
marker that says so. Where the pipeline ends without an error, each file has a
marker of success.

The server around it, with file and network access, is under `app/`. It runs the
validation pipeline of `xml-oxydizer`.

## Configuration

```toml
[server]
listen_addr = "0.0.0.0:50051"

[pipeline]
thread_count = 4              # default: as the thread pool chooses
buf_reader_capacity = 65536   # default: 64 KB
diagnostics_buffer_size = 256 # default: 256

[[minio]]
name = "main"
endpoint = "http://minio:9000"
access_key = "minioadmin"
secret_key = "minioadmin"
secure = false
```

## Adding validators

A validator is a `DescriptorTree` built in `src/validators.rs` and registered in
`register_all` under the ID that clients refer to. A new kind of rule is a new
variant of `Rule` there, with what it needs and what it finds.
