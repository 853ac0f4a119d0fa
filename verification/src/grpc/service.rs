//! The request handling of the gRPC service.
//!
//! A batch is checked as a whole before any work starts. Then three tasks run
//! beside each other: one starts the downloads of the files, one runs the
//! validation pipeline over them, and one passes its findings on.

use std::sync::Arc;

use minio::s3::MinioClient;
use vstd::prelude::*;
use vstd::string::*;

use crate::config::PipelineConfig;
use crate::grpc::responses::{
    closes, closing_in, failures_of, is_success, lemma_markers_follow_pipeline, markers_in, tells,
    BatchEvent, FailureKind,
};
use crate::proto::{Code, FileRequest, Status, ValidateRequest, ValidateResponse};
use crate::registry::ValidatorRegistry;
use crate::storage::client::MinioClientPool;
use crate::validators::DescriptorTree;

verus! {

/// The number of responses that wait for the client.
pub const RESPONSE_BUFFER: usize = 256;

/// The number of findings that wait to become responses.
pub const DIAGNOSTIC_BUFFER: usize = 1024;

/// The name of a file in what is said of it: its bucket and its key.
pub open spec fn name_of(file: FileRequest) -> Seq<char> {
    file.bucket@ + "/"@ + file.object_key@
}

/// The names of files.
pub open spec fn names_of(files: Seq<FileRequest>) -> Seq<Seq<char>> {
    Seq::new(files.len(), |i: int| name_of(files[i]))
}

/// What a service refers requests to.
pub struct Resources {
    /// The MinIO clients by configuration name.
    pub clients: Map<Seq<char>, MinioClient>,
    /// The validators by ID.
    pub validators: Map<Seq<char>, Arc<DescriptorTree>>,
}

impl Resources {
    /// Whether the MinIO instance and the validator of a file are known.
    pub open spec fn know(self, file: FileRequest) -> bool {
        &&& self.clients.contains_key(file.minio_config_name@)
        &&& self.validators.contains_key(file.validator_id@)
    }

    /// What is said of a file that is not known; the MinIO instance comes
    /// first.
    pub open spec fn objection(self, file: FileRequest) -> Seq<char> {
        if !self.clients.contains_key(file.minio_config_name@) {
            "unknown minio config '"@ + file.minio_config_name@ + "'"@
        } else {
            "unknown validator '"@ + file.validator_id@ + "'"@
        }
    }

    /// Whether a batch is accepted: it has files, and all of them are known.
    pub open spec fn accept(self, files: Seq<FileRequest>) -> bool {
        &&& files.len() > 0
        &&& forall|i: int| 0 <= i < files.len() ==> self.know(#[trigger] files[i])
    }

    /// Whether file `k` is the first known one.
    pub open spec fn first_known(self, files: Seq<FileRequest>, k: int) -> bool {
        &&& 0 <= k < files.len()
        &&& self.know(files[k])
        &&& forall|i: int| 0 <= i < k ==> !self.know(#[trigger] files[i])
    }

    /// Whether file `k` is the first that is not known.
    pub open spec fn first_unknown(self, files: Seq<FileRequest>, k: int) -> bool {
        &&& 0 <= k < files.len()
        &&& !self.know(files[k])
        &&& forall|i: int| 0 <= i < k ==> self.know(#[trigger] files[i])
    }

    /// Whether `status` is the answer to a batch that is not accepted: it says
    /// that there are no files, or what the first file that is not known lacks.
    pub open spec fn refused_with(self, files: Seq<FileRequest>, status: Status) -> bool {
        if files.len() == 0 {
            status.code == Code::InvalidArgument && status.message@ == "no files provided"@
        } else {
            exists|k: int| #[trigger]
                self.first_unknown(files, k) && status.code == Code::NotFound && status.message@
                    == self.objection(files[k])
        }
    }

    /// The files that are downloaded of those given: the known ones, in order.
    pub open spec fn downloaded(self, files: Seq<FileRequest>) -> Seq<FileRequest>
        decreases files.len(),
    {
        if files.len() == 0 {
            Seq::empty()
        } else if self.know(files[0]) {
            seq![files[0]] + self.downloaded(files.drop_first())
        } else {
            self.downloaded(files.drop_first())
        }
    }

    /// Whether `job` is the download of a file.
    pub open spec fn job_of(self, job: FileJob, file: FileRequest) -> bool {
        &&& *job.client == self.clients[file.minio_config_name@]
        &&& job.descriptors == self.validators[file.validator_id@]
        &&& job.bucket@ == file.bucket@
        &&& job.object_key@ == file.object_key@
        &&& job.filename@ == name_of(file)
    }
}

/// The download of a file, and the validator that its content goes to.
pub struct FileJob<'a> {
    pub client: &'a MinioClient,
    pub descriptors: Arc<DescriptorTree>,
    pub bucket: String,
    pub object_key: String,
    pub filename: String,
}

/// What became of a file whose download was to be started.
#[derive(Clone, Copy, Debug, PartialEq, Eq, Structural)]
pub enum Delivery {
    /// The file is with the pipeline.
    Handed,
    /// The client is told that the download could not be started.
    Reported,
    /// There is nobody to take the file, or the report.
    Refused,
}

/// The files of a batch on their way to being downloaded.
pub struct DownloadFeed {
    files: Vec<FileRequest>,
    next: usize,
    stopped: bool,
    current: Option<String>,
    handed: Vec<String>,
}

impl DownloadFeed {
    /// The files that have not been taken out yet; none once the feed stopped.
    pub closed spec fn remaining(self) -> Seq<FileRequest> {
        if self.stopped || self.next > self.files@.len() {
            Seq::empty()
        } else {
            self.files@.skip(self.next as int)
        }
    }

    /// The number of files of the batch.
    pub closed spec fn total(self) -> nat {
        self.files@.len()
    }

    /// The name of the file that was taken out last, until it is known what
    /// became of it.
    pub closed spec fn current(self) -> Option<Seq<char>> {
        match self.current {
            Some(name) => Some(name@),
            None => None,
        }
    }

    /// The names of the files that are with the pipeline, in order.
    pub closed spec fn handed(self) -> Seq<Seq<char>> {
        Seq::new(self.handed@.len(), |i: int| self.handed@[i]@)
    }

    /// Starts with all files of a batch.
    pub fn new(files: Vec<FileRequest>) -> (feed: Self)
        ensures
            feed.remaining() == files@,
            feed.total() == files@.len(),
            feed.current() is None,
            feed.handed() == Seq::<Seq<char>>::empty(),
    {
        let feed = DownloadFeed {
            files,
            next: 0,
            stopped: false,
            current: None,
            handed: Vec::new(),
        };
        assert(files@.skip(0) == files@);
        feed
    }

    /// The number of files of the batch.
    pub fn file_count(&self) -> (count: usize)
        ensures
            count == self.total(),
    {
        self.files.len()
    }

    /// Takes note of what became of the file that was taken out last. Where
    /// there was nobody to take it, the feed stops.
    pub fn note_delivery(&mut self, delivery: Delivery)
        ensures
            final(self).total() == old(self).total(),
            final(self).current() is None,
            final(self).remaining() == (if delivery is Refused {
                Seq::empty()
            } else {
                old(self).remaining()
            }),
            final(self).handed() == (match old(self).current() {
                Some(name) if delivery is Handed => old(self).handed().push(name),
                _ => old(self).handed(),
            }),
    {
        let current = self.current.take();
        match delivery {
            Delivery::Handed => {
                if let Some(name) = current {
                    self.handed.push(name);
                }
            },
            Delivery::Reported => {},
            Delivery::Refused => {
                self.stopped = true;
            },
        }
        assert(self.handed() =~= match old(self).current() {
            Some(name) if delivery is Handed => old(self).handed().push(name),
            _ => old(self).handed(),
        });
    }

    /// The names of the files that are with the pipeline, once the feed is done
    /// with.
    pub fn into_handed(self) -> (names: Vec<String>)
        ensures
            names@.len() == self.handed().len(),
            forall|i: int| 0 <= i < names@.len() ==> #[trigger] names@[i]@ == self.handed()[i],
    {
        self.handed
    }
}

/// The `XmlValidatorService`: what requests are referred to, and the settings
/// of the pipeline.
pub struct ValidatorServiceImpl {
    minio_pool: Arc<MinioClientPool>,
    registry: Arc<ValidatorRegistry>,
    thread_count: Option<usize>,
    buf_reader_capacity: usize,
    diagnostics_buffer_size: usize,
}

impl ValidatorServiceImpl {
    /// What the service refers requests to.
    pub closed spec fn resources(self) -> Resources {
        Resources { clients: self.minio_pool@, validators: self.registry@ }
    }

    /// The settings that a pipeline of the service runs with.
    pub closed spec fn pipeline(self) -> PipelineConfig {
        PipelineConfig {
            thread_count: self.thread_count,
            buf_reader_capacity: self.buf_reader_capacity,
            diagnostics_buffer_size: self.diagnostics_buffer_size,
        }
    }

    /// Creates a service.
    pub fn new(
        minio_pool: Arc<MinioClientPool>,
        registry: Arc<ValidatorRegistry>,
        pipeline_config: &PipelineConfig,
    ) -> (service: Self)
        ensures
            service.resources() == (Resources { clients: minio_pool@, validators: registry@ }),
            service.pipeline() == *pipeline_config,
    {
        ValidatorServiceImpl {
            minio_pool,
            registry,
            thread_count: pipeline_config.thread_count,
            buf_reader_capacity: pipeline_config.buf_reader_capacity,
            diagnostics_buffer_size: pipeline_config.diagnostics_buffer_size,
        }
    }

    /// The settings of the pipeline of one request: those that the service was
    /// created with.
    pub fn build_pipeline_config(&self) -> (config: PipelineConfig)
        ensures
            config == self.pipeline(),
    {
        PipelineConfig {
            thread_count: self.thread_count,
            buf_reader_capacity: self.buf_reader_capacity,
            diagnostics_buffer_size: self.diagnostics_buffer_size,
        }
    }

    /// Checks a batch before any work starts.
    pub fn check_files(&self, files: &[FileRequest]) -> (verdict: Result<(), Status>)
        ensures
            match verdict {
                Ok(_) => self.resources().accept(files@),
                Err(status) => self.resources().refused_with(files@, status),
            },
            verdict is Ok <==> files@.len() > 0 && forall|i: int|
                0 <= i < files@.len() ==> {
                    &&& self.resources().clients.contains_key(
                        (#[trigger] files@[i]).minio_config_name@,
                    )
                    &&& self.resources().validators.contains_key(files@[i].validator_id@)
                },
    {
        if files.len() == 0 {
            return Err(
                Status { code: Code::InvalidArgument, message: "no files provided".to_owned() },
            );
        }
        let mut i: usize = 0;
        while i < files.len()
            invariant
                i <= files@.len(),
                files@.len() > 0,
                forall|j: int| 0 <= j < i ==> self.resources().know(#[trigger] files@[j]),
            decreases files@.len() - i,
        {
            let file = &files[i];
            if self.minio_pool.get(file.minio_config_name.as_str()).is_none() {
                assert(self.resources().first_unknown(files@, i as int));
                let mut message = "unknown minio config '".to_owned();
                message.append(file.minio_config_name.as_str());
                message.append("'");
                return Err(Status { code: Code::NotFound, message });
            }
            if self.registry.get(file.validator_id.as_str()).is_none() {
                assert(self.resources().first_unknown(files@, i as int));
                let mut message = "unknown validator '".to_owned();
                message.append(file.validator_id.as_str());
                message.append("'");
                return Err(Status { code: Code::NotFound, message });
            }
            i = i + 1;
        }
        Ok(())
    }

    /// Starts a batch: refuses it, or hands out the feed of its downloads.
    pub fn validate_batch(&self, request: ValidateRequest) -> (feed: Result<DownloadFeed, Status>)
        ensures
            match feed {
                Ok(f) => {
                    &&& self.resources().accept(request.files@)
                    &&& f.remaining() == request.files@
                    &&& f.total() == request.files@.len()
                    &&& f.current() is None
                    &&& f.handed() == Seq::<Seq<char>>::empty()
                },
                Err(status) => self.resources().refused_with(request.files@, status),
            },
            feed is Ok <==> request.files@.len() > 0 && forall|i: int|
                0 <= i < request.files@.len() ==> {
                    &&& self.resources().clients.contains_key(
                        (#[trigger] request.files@[i]).minio_config_name@,
                    )
                    &&& self.resources().validators.contains_key(request.files@[i].validator_id@)
                },
    {
        match self.check_files(request.files.as_slice()) {
            Ok(_) => Ok(DownloadFeed::new(request.files)),
            Err(status) => Err(status),
        }
    }

    /// Takes the next file to download out of a feed. Files whose MinIO
    /// instance or validator is not known are passed over.
    pub fn next_job(&self, feed: &mut DownloadFeed) -> (job: Option<FileJob<'_>>)
        ensures
            final(feed).total() == old(feed).total(),
            final(feed).handed() == old(feed).handed(),
            match job {
                Some(j) => {
                    &&& final(feed).current() == Some(j.filename@)
                    &&& exists|k: int| #[trigger]
                        self.resources().first_known(old(feed).remaining(), k)
                            && self.resources().job_of(j, old(feed).remaining()[k])
                            && final(feed).remaining() == old(feed).remaining().skip(k + 1)
                    &&& exists|k: int|
                        {
                            &&& 0 <= k < old(feed).remaining().len()
                            &&& final(feed).remaining() == old(feed).remaining().skip(k + 1)
                            &&& self.resources().clients.contains_key(
                                (#[trigger] old(feed).remaining()[k]).minio_config_name@,
                            )
                            &&& *j.client == self.resources().clients[old(feed)
                                .remaining()[k].minio_config_name@]
                            &&& self.resources().validators.contains_key(
                                old(feed).remaining()[k].validator_id@,
                            )
                            &&& j.descriptors == self.resources().validators[old(feed)
                                .remaining()[k].validator_id@]
                            &&& j.bucket@ == old(feed).remaining()[k].bucket@
                            &&& j.object_key@ == old(feed).remaining()[k].object_key@
                            &&& j.filename@ == old(feed).remaining()[k].bucket@ + "/"@ + old(feed)
                                .remaining()[k].object_key@
                            &&& forall|i: int|
                                0 <= i < k ==> !(self.resources().clients.contains_key(
                                    (#[trigger] old(feed).remaining()[i]).minio_config_name@,
                                ) && self.resources().validators.contains_key(
                                    old(feed).remaining()[i].validator_id@,
                                ))
                        }
                },
                None => {
                    &&& final(feed).current() is None
                    &&& final(feed).remaining().len() == 0
                    &&& forall|i: int|
                        0 <= i < old(feed).remaining().len() ==> !self.resources().know(
                            #[trigger] old(feed).remaining()[i],
                        )
                    &&& forall|i: int|
                        0 <= i < old(feed).remaining().len()
                            ==> !(self.resources().clients.contains_key(
                            (#[trigger] old(feed).remaining()[i]).minio_config_name@,
                        ) && self.resources().validators.contains_key(
                            old(feed).remaining()[i].validator_id@,
                        ))
                },
            },
    {
        feed.current = None;
        let ghost all = feed.remaining();
        let ghost start = feed.next;
        while !feed.stopped && feed.next < feed.files.len()
            invariant
                feed.total() == old(feed).total(),
                feed.files == old(feed).files,
                feed.handed == old(feed).handed,
                feed.current is None,
                feed.stopped == old(feed).stopped,
                all == old(feed).remaining(),
                start == old(feed).next,
                feed.stopped ==> all.len() == 0,
                start <= feed.next,
                !feed.stopped && start <= feed.files@.len() ==> feed.next <= feed.files@.len()
                    && all == feed.files@.skip(start as int),
                start > feed.files@.len() ==> all.len() == 0 && feed.next == start,
                forall|i: int|
                    0 <= i < all.len() && i < feed.next - start ==> !self.resources().know(
                        #[trigger] all[i],
                    ),
            decreases feed.files@.len() - feed.next,
        {
            let at: usize = feed.next;
            feed.next = at + 1;
            let file = &feed.files[at];
            let client = self.minio_pool.get(file.minio_config_name.as_str());
            let descriptors = self.registry.get(file.validator_id.as_str());
            assert(all[at - start] == *file);
            if let Some(client) = client {
                if let Some(descriptors) = descriptors {
                    let mut filename = file.bucket.clone();
                    filename.append("/");
                    filename.append(file.object_key.as_str());
                    let current = filename.clone();
                    let job = FileJob {
                        client,
                        descriptors,
                        bucket: file.bucket.clone(),
                        object_key: file.object_key.clone(),
                        filename,
                    };
                    feed.current = Some(current);
                    assert(self.resources().first_known(all, at - start));
                    assert(self.resources().job_of(job, all[at - start]));
                    assert(feed.remaining() == all.skip(at - start + 1));
                    return Some(job);
                }
            }
        }
        None
    }
}

/// Every batch has one answer: an accepted batch cannot be refused, a refusal is
/// the same whichever way it is reached, and a batch with files that is not
/// accepted has a first file that is not known.
pub proof fn lemma_verdict_is_unique(
    resources: Resources,
    files: Seq<FileRequest>,
    a: Status,
    b: Status,
)
    ensures
        resources.accept(files) ==> !resources.refused_with(files, a),
        resources.refused_with(files, a) && resources.refused_with(files, b) ==> a.code == b.code
            && a.message@ == b.message@,
        !resources.accept(files) && files.len() > 0 ==> exists|k: int|
            resources.first_unknown(files, k),
{
    if files.len() > 0 {
        if resources.refused_with(files, a) && resources.refused_with(files, b) {
            let i = choose|k: int| #[trigger]
                resources.first_unknown(files, k) && a.code == Code::NotFound && a.message@
                    == resources.objection(files[k]);
            let j = choose|k: int| #[trigger]
                resources.first_unknown(files, k) && b.code == Code::NotFound && b.message@
                    == resources.objection(files[k]);
            assert(i == j);
        }
        if !resources.accept(files) {
            let bad = choose|i: int| 0 <= i < files.len() && !resources.know(#[trigger] files[i]);
            lemma_first_unknown_exists(resources, files, bad);
        }
    }
}

/// Where some file is not known, one is the first.
proof fn lemma_first_unknown_exists(resources: Resources, files: Seq<FileRequest>, bad: int)
    requires
        0 <= bad < files.len(),
        !resources.know(files[bad]),
    ensures
        exists|k: int| resources.first_unknown(files, k),
    decreases bad,
{
    if exists|i: int| 0 <= i < bad && !resources.know(#[trigger] files[i]) {
        let earlier = choose|i: int| 0 <= i < bad && !resources.know(#[trigger] files[i]);
        lemma_first_unknown_exists(resources, files, earlier);
    } else {
        assert(resources.first_unknown(files, bad));
    }
}

/// Of an accepted batch every file is downloaded, in the order of the request,
/// and none is passed over.
pub proof fn lemma_accepted_all_downloaded(resources: Resources, files: Seq<FileRequest>)
    requires
        forall|i: int| 0 <= i < files.len() ==> resources.know(#[trigger] files[i]),
    ensures
        resources.downloaded(files) == files,
        files.len() > 0 ==> resources.first_known(files, 0),
    decreases files.len(),
{
    if files.len() > 0 {
        let rest = files.drop_first();
        assert forall|i: int| 0 <= i < rest.len() implies resources.know(#[trigger] rest[i]) by {
            assert(resources.know(files[i + 1]));
        }
        lemma_accepted_all_downloaded(resources, rest);
        assert(files == seq![files[0]] + rest);
    }
}

/// Taking jobs out of a feed one after the other downloads the known files in
/// order: each job is for the first of them, and the others stay.
pub proof fn lemma_jobs_follow_files(resources: Resources, files: Seq<FileRequest>, k: int)
    requires
        resources.first_known(files, k),
    ensures
        resources.downloaded(files) == seq![files[k]] + resources.downloaded(files.skip(k + 1)),
    decreases files.len(),
{
    if k == 0 {
        assert(files.drop_first() == files.skip(1));
    } else {
        let rest = files.drop_first();
        assert(!resources.know(files[0]));
        assert forall|i: int| 0 <= i < k - 1 implies !resources.know(#[trigger] rest[i]) by {
            assert(!resources.know(files[i + 1]));
        }
        lemma_jobs_follow_files(resources, rest, k - 1);
        assert(rest.skip(k) == files.skip(k + 1));
    }
}

/// Whether the next file was taken out of a feed and handed to the pipeline,
/// from `before` to `after`.
pub open spec fn hands_next(
    resources: Resources,
    before: DownloadFeed,
    after: DownloadFeed,
) -> bool {
    exists|k: int| #[trigger]
        resources.first_known(before.remaining(), k) && after.remaining()
            == before.remaining().skip(k + 1) && after.handed() == before.handed().push(
            name_of(before.remaining()[k]),
        )
}

/// A feed whose files are all taken by the pipeline, until no known one is left,
/// has handed over the known files, each once, in their order. `states` are its
/// states before the first file and after each.
pub proof fn lemma_handed_follow_files(resources: Resources, states: Seq<DownloadFeed>)
    requires
        states.len() > 0,
        forall|i: int|
            0 <= i < states.len() - 1 ==> hands_next(
                resources,
                #[trigger] states[i],
                states[i + 1],
            ),
        resources.downloaded(states.last().remaining()).len() == 0,
    ensures
        states.last().handed() == states[0].handed() + names_of(
            resources.downloaded(states[0].remaining()),
        ),
    decreases states.len(),
{
    let files = states[0].remaining();
    if states.len() == 1 {
        assert(states[0].handed() + names_of(resources.downloaded(files)) == states[0].handed());
    } else {
        let later = states.drop_first();
        assert(hands_next(resources, states[0], states[1]));
        let k = choose|k: int| #[trigger]
            resources.first_known(files, k) && states[1].remaining() == files.skip(k + 1)
                && states[1].handed() == states[0].handed().push(name_of(files[k]));
        assert forall|i: int| 0 <= i < later.len() - 1 implies hands_next(
            resources,
            #[trigger] later[i],
            later[i + 1],
        ) by {
            assert(hands_next(resources, states[i + 1], states[i + 2]));
        }
        assert(later.last() == states.last());
        lemma_handed_follow_files(resources, later);
        lemma_jobs_follow_files(resources, files, k);
        let rest = resources.downloaded(files.skip(k + 1));
        assert(names_of(seq![files[k]] + rest) == seq![name_of(files[k])] + names_of(rest));
    }
}

/// An accepted batch whose files were all handed to the pipeline, and on which
/// the pipeline returned no error, is answered with one marker of success for
/// each of its files, in the order of the request. A marker of a failure it has
/// only for a download that could not be started. `names` are what the feed
/// gives at its end, and `events` what the client is told of.
pub proof fn lemma_clean_batch_marks_every_file(
    resources: Resources,
    files: Seq<FileRequest>,
    states: Seq<DownloadFeed>,
    names: Seq<String>,
    events: Seq<BatchEvent>,
    responses: Seq<ValidateResponse>,
)
    requires
        resources.accept(files),
        states.len() > 0,
        states[0].remaining() == files,
        states[0].handed().len() == 0,
        forall|i: int|
            0 <= i < states.len() - 1 ==> hands_next(
                resources,
                #[trigger] states[i],
                states[i + 1],
            ),
        states.last().remaining().len() == 0,
        names.len() == states.last().handed().len(),
        forall|i: int| 0 <= i < names.len() ==> #[trigger] names[i]@ == states.last().handed()[i],
        tells(responses, events),
        closes(closing_in(events), names, Seq::empty()),
    ensures
        markers_in(responses, false).len() == failures_of(events, FailureKind::Start).len(),
        markers_in(responses, true).len() == files.len(),
        forall|i: int|
            0 <= i < files.len() ==> is_success(
                #[trigger] markers_in(responses, true)[i],
                name_of(files[i]),
            ),
{
    lemma_accepted_all_downloaded(resources, files);
    lemma_handed_follow_files(resources, states);
    lemma_markers_follow_pipeline(responses, events, names, Seq::empty());
    assert(states[0].handed() + names_of(files) == names_of(files));
    assert forall|i: int| 0 <= i < files.len() implies is_success(
        #[trigger] markers_in(responses, true)[i],
        name_of(files[i]),
    ) by {
        assert(names[i]@ == names_of(files)[i]);
    }
}

/// A batch never leads to more downloads than it has files, so a channel with
/// room for as many never makes the feed wait.
pub proof fn lemma_downloads_fit(resources: Resources, files: Seq<FileRequest>)
    ensures
        resources.downloaded(files).len() <= files.len(),
    decreases files.len(),
{
    if files.len() > 0 {
        lemma_downloads_fit(resources, files.drop_first());
    }
}

/// The job of a file is made of what the file's own request names, whatever else
/// there is: the client under its instance's name, the validator under its
/// validator's ID, and its bucket and key, which are also what it is called.
pub proof fn lemma_job_is_of_its_file(resources: Resources, job: FileJob, file: FileRequest)
    ensures
        resources.job_of(job, file) <==> {
            &&& *job.client == resources.clients[file.minio_config_name@]
            &&& job.descriptors == resources.validators[file.validator_id@]
            &&& job.bucket@ == file.bucket@
            &&& job.object_key@ == file.object_key@
            &&& job.filename@ == file.bucket@ + "/"@ + file.object_key@
        },
{
}

/// What is registered or configured under other names has no bearing on the job
/// of a file.
pub proof fn lemma_job_ignores_other_names(
    resources: Resources,
    others: Resources,
    job: FileJob,
    file: FileRequest,
)
    requires
        resources.know(file),
        others.know(file),
        resources.clients[file.minio_config_name@] == others.clients[file.minio_config_name@],
        resources.validators[file.validator_id@] == others.validators[file.validator_id@],
    ensures
        resources.job_of(job, file) <==> others.job_of(job, file),
{
}

/// Files with the same name have the same bucket and key where neither bucket
/// holds a slash, as no bucket does.
pub proof fn lemma_names_tell_files_apart(a: FileRequest, b: FileRequest)
    requires
        !a.bucket@.contains('/'),
        !b.bucket@.contains('/'),
        name_of(a) == name_of(b),
    ensures
        a.bucket@ == b.bucket@,
        a.object_key@ == b.object_key@,
{
    reveal_strlit("/");
    let name = name_of(a);
    assert(name[a.bucket@.len() as int] == '/');
    assert(name[b.bucket@.len() as int] == '/');
    if a.bucket@.len() < b.bucket@.len() {
        assert(b.bucket@[a.bucket@.len() as int] == '/');
    }
    if b.bucket@.len() < a.bucket@.len() {
        assert(a.bucket@[b.bucket@.len() as int] == '/');
    }
    assert(a.bucket@ == name.take(a.bucket@.len() as int));
    assert(b.bucket@ == name.take(b.bucket@.len() as int));
    assert(a.object_key@ == name.skip(a.bucket@.len() + 1int));
    assert(b.object_key@ == name.skip(b.bucket@.len() + 1int));
}

/// A batch is let in if and only if it has files and each of them names an
/// instance and a validator that are there. Otherwise it is refused: one without
/// files as a bad argument, and any other as not found, with the name that the
/// first file in question gives and that is not there, its instance first.
pub proof fn lemma_batch_is_judged(
    service: ValidatorServiceImpl,
    files: &[FileRequest],
    verdict: Result<(), Status>,
)
    requires
        call_ensures(ValidatorServiceImpl::check_files, (&service, files), verdict),
    ensures
        verdict is Ok <==> files@.len() > 0 && forall|i: int|
            0 <= i < files@.len() ==> {
                &&& service.resources().clients.contains_key(
                    (#[trigger] files@[i]).minio_config_name@,
                )
                &&& service.resources().validators.contains_key(files@[i].validator_id@)
            },
        files@.len() == 0 ==> verdict->Err_0.code is InvalidArgument
            && verdict->Err_0.message@ == "no files provided"@,
        files@.len() > 0 && verdict is Err ==> verdict->Err_0.code is NotFound && exists|k: int|
            {
                &&& 0 <= k < files@.len()
                &&& verdict->Err_0.message@ == if !service.resources().clients.contains_key(
                    (#[trigger] files@[k]).minio_config_name@,
                ) {
                    "unknown minio config '"@ + files@[k].minio_config_name@ + "'"@
                } else {
                    "unknown validator '"@ + files@[k].validator_id@ + "'"@
                }
                &&& !(service.resources().clients.contains_key(files@[k].minio_config_name@)
                    && service.resources().validators.contains_key(files@[k].validator_id@))
                &&& forall|i: int|
                    0 <= i < k ==> service.resources().clients.contains_key(
                        (#[trigger] files@[i]).minio_config_name@,
                    ) && service.resources().validators.contains_key(files@[i].validator_id@)
            },
{
    if files@.len() > 0 && verdict is Err {
        let k = choose|k: int| #[trigger]
            service.resources().first_unknown(files@, k) && verdict->Err_0.code == Code::NotFound
                && verdict->Err_0.message@ == service.resources().objection(files@[k]);
        assert forall|i: int| 0 <= i < k implies service.resources().clients.contains_key(
            (#[trigger] files@[i]).minio_config_name@,
        ) && service.resources().validators.contains_key(files@[i].validator_id@) by {
            assert(service.resources().know(files@[i]));
        }
        assert(!service.resources().know(files@[k]));
    }
}

/// The request of a batch is judged by its files, and what is let in is the
/// whole batch, in its order.
pub proof fn lemma_request_is_judged_by_its_files(
    service: ValidatorServiceImpl,
    request: ValidateRequest,
    files: &[FileRequest],
    feed: Result<DownloadFeed, Status>,
    verdict: Result<(), Status>,
)
    requires
        files@ == request.files@,
        call_ensures(ValidatorServiceImpl::validate_batch, (&service, request), feed),
        call_ensures(ValidatorServiceImpl::check_files, (&service, files), verdict),
    ensures
        feed is Ok <==> verdict is Ok,
        feed is Err ==> feed->Err_0.code == verdict->Err_0.code && feed->Err_0.message@
            == verdict->Err_0.message@,
        feed is Ok ==> feed->Ok_0.remaining() == request.files@ && feed->Ok_0.total()
            == request.files@.len() && feed->Ok_0.handed().len() == 0,
{
    if feed is Err && verdict is Err {
        lemma_verdict_is_unique(service.resources(), files@, feed->Err_0, verdict->Err_0);
    }
}

/// A service that is made of a pool and a registry lets in files of theirs and
/// no others, and runs the pipeline with the settings that it was given.
pub proof fn lemma_service_is_of_its_parts(
    pool: Arc<MinioClientPool>,
    registry: Arc<ValidatorRegistry>,
    settings: PipelineConfig,
    service: ValidatorServiceImpl,
    files: &[FileRequest],
    verdict: Result<(), Status>,
    config: PipelineConfig,
)
    requires
        call_ensures(ValidatorServiceImpl::new, (pool, registry, &settings), service),
        call_ensures(ValidatorServiceImpl::check_files, (&service, files), verdict),
        call_ensures(ValidatorServiceImpl::build_pipeline_config, (&service,), config),
    ensures
        verdict is Ok <==> files@.len() > 0 && forall|i: int|
            0 <= i < files@.len() ==> {
                &&& pool@.contains_key((#[trigger] files@[i]).minio_config_name@)
                &&& registry@.contains_key(files@[i].validator_id@)
            },
        service.resources().clients == pool@,
        service.resources().validators == registry@,
        config.thread_count == settings.thread_count,
        config.buf_reader_capacity == settings.buf_reader_capacity,
        config.diagnostics_buffer_size == settings.diagnostics_buffer_size,
{
}

/// The files that are downloaded are those whose instance and validator are
/// there, wherever they stand among others: of one file it is told by its two
/// names alone, and of files in two parts it is those of the one and those of
/// the other.
pub proof fn lemma_downloaded_by_parts(
    resources: Resources,
    a: Seq<FileRequest>,
    b: Seq<FileRequest>,
    file: FileRequest,
)
    ensures
        resources.downloaded(a + b) == resources.downloaded(a) + resources.downloaded(b),
        resources.downloaded(Seq::empty()).len() == 0,
        resources.downloaded(seq![file]) == if resources.clients.contains_key(
            file.minio_config_name@,
        ) && resources.validators.contains_key(file.validator_id@) {
            seq![file]
        } else {
            Seq::empty()
        },
    decreases a.len(),
{
    assert(seq![file].drop_first() == Seq::<FileRequest>::empty());
    assert(resources.downloaded(seq![file].drop_first()).len() == 0);
    if a.len() == 0 {
        assert(a + b == b);
    } else {
        lemma_downloaded_by_parts(resources, a.drop_first(), b, file);
        assert((a + b).drop_first() == a.drop_first() + b);
    }
}

/// How much can wait on the way from the pipeline to the client.
pub proof fn lemma_buffers()
    ensures
        RESPONSE_BUFFER == 256,
        DIAGNOSTIC_BUFFER == 1024,
{
}

} // verus!
