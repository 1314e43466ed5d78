//! Importing test cases from other tools' formats and exporting them.

pub mod postman;
pub mod openapi;
pub mod exporter;

use vstd::prelude::*;
use crate::text::{owned, concat};
use crate::error::TestCaseError;

verus! {

/// Formats test cases can be imported from.
#[derive(Clone, Copy, Debug, PartialEq, Eq, Structural)]
pub enum ImportFormat {
    PostmanCollection,
    OpenApiSpec,
    InsomniaCollection,
    SwaggerSpec,
}

/// Formats test cases can be exported to.
#[derive(Clone, Copy, Debug, PartialEq, Eq, Structural)]
pub enum ExportFormat {
    Json,
    Yaml,
    PostmanCollection,
    OpenApiSpec,
}

/// Where imported content comes from.
pub enum ImportSource {
    File(String),
    Url(String),
    Content(String),
}

/// How test cases are imported.
pub struct ImportOptions {
    pub generate_assertions: bool,
    pub include_examples: bool,
    pub base_url_override: Option<String>,
    pub tag_prefix: Option<String>,
}

impl ImportOptions {
    /// Assertions and examples included, no base URL override, no tag prefix.
    pub fn default_options() -> (r: Self)
        ensures
            r.generate_assertions,
            r.include_examples,
            r.base_url_override is None,
            r.tag_prefix is None,
    {
        ImportOptions { generate_assertions: true, include_examples: true, base_url_override: None, tag_prefix: None }
    }
}

/// How test cases are exported.
pub struct ExportOptions {
    pub include_metadata: bool,
    pub pretty_format: bool,
    pub include_dependencies: bool,
}

impl ExportOptions {
    /// Metadata included, pretty output, dependencies left out.
    pub fn default_options() -> (r: Self)
        ensures
            r.include_metadata,
            r.pretty_format,
            !r.include_dependencies,
    {
        ExportOptions { include_metadata: true, pretty_format: true, include_dependencies: false }
    }
}

/// The built-in importers.
pub enum Importer {
    Postman(postman::PostmanImporter),
    OpenApi(openapi::OpenApiImporter),
}

/// The built-in exporters.
pub enum Exporter {
    Json(exporter::JsonExporter),
    Yaml(exporter::YamlExporter),
    Postman(exporter::PostmanExporter),
}

/// The formats an importer reads.
pub open spec fn importer_formats(i: Importer) -> Seq<ImportFormat> {
    match i {
        Importer::Postman(_) => seq![ImportFormat::PostmanCollection],
        Importer::OpenApi(_) => seq![ImportFormat::OpenApiSpec, ImportFormat::SwaggerSpec],
    }
}

/// The formats an exporter writes.
pub open spec fn exporter_formats(e: Exporter) -> Seq<ExportFormat> {
    match e {
        Exporter::Json(_) => seq![ExportFormat::Json],
        Exporter::Yaml(_) => seq![ExportFormat::Yaml],
        Exporter::Postman(_) => seq![ExportFormat::PostmanCollection],
    }
}

impl Importer {
    /// The formats this importer reads.
    pub fn supported_formats(&self) -> (r: Vec<ImportFormat>)
        ensures
            r@ == importer_formats(*self),
    {
        match self {
            Importer::Postman(_) => vec![ImportFormat::PostmanCollection],
            Importer::OpenApi(_) => vec![ImportFormat::OpenApiSpec, ImportFormat::SwaggerSpec],
        }
    }
}

impl Exporter {
    /// The formats this exporter writes.
    pub fn supported_formats(&self) -> (r: Vec<ExportFormat>)
        ensures
            r@ == exporter_formats(*self),
    {
        match self {
            Exporter::Json(_) => vec![ExportFormat::Json],
            Exporter::Yaml(_) => vec![ExportFormat::Yaml],
            Exporter::Postman(_) => vec![ExportFormat::PostmanCollection],
        }
    }
}

/// The formats of a list of importers, in order.
pub open spec fn all_import_formats(s: Seq<Importer>) -> Seq<ImportFormat>
    decreases s.len(),
{
    if s.len() == 0 { Seq::empty() } else { all_import_formats(s.drop_last()) + importer_formats(s.last()) }
}

/// The formats of a list of exporters, in order.
pub open spec fn all_export_formats(s: Seq<Exporter>) -> Seq<ExportFormat>
    decreases s.len(),
{
    if s.len() == 0 { Seq::empty() } else { all_export_formats(s.drop_last()) + exporter_formats(s.last()) }
}

/// How std's `Debug` writes an import format: its variant's name.
pub open spec fn import_format_name(f: ImportFormat) -> Seq<char> {
    match f {
        ImportFormat::PostmanCollection => "PostmanCollection"@,
        ImportFormat::OpenApiSpec => "OpenApiSpec"@,
        ImportFormat::InsomniaCollection => "InsomniaCollection"@,
        ImportFormat::SwaggerSpec => "SwaggerSpec"@,
    }
}

/// How std's `Debug` writes an export format: its variant's name.
pub open spec fn export_format_name(f: ExportFormat) -> Seq<char> {
    match f {
        ExportFormat::Json => "Json"@,
        ExportFormat::Yaml => "Yaml"@,
        ExportFormat::PostmanCollection => "PostmanCollection"@,
        ExportFormat::OpenApiSpec => "OpenApiSpec"@,
    }
}

fn import_format_text(f: ImportFormat) -> (r: String)
    ensures
        r@ == import_format_name(f),
{
    match f {
        ImportFormat::PostmanCollection => owned("PostmanCollection"),
        ImportFormat::OpenApiSpec => owned("OpenApiSpec"),
        ImportFormat::InsomniaCollection => owned("InsomniaCollection"),
        ImportFormat::SwaggerSpec => owned("SwaggerSpec"),
    }
}

fn export_format_text(f: ExportFormat) -> (r: String)
    ensures
        r@ == export_format_name(f),
{
    match f {
        ExportFormat::Json => owned("Json"),
        ExportFormat::Yaml => owned("Yaml"),
        ExportFormat::PostmanCollection => owned("PostmanCollection"),
        ExportFormat::OpenApiSpec => owned("OpenApiSpec"),
    }
}

/// The registry of importers and exporters.
pub struct ImportExportManager {
    importers: Vec<Importer>,
    exporters: Vec<Exporter>,
}

impl ImportExportManager {
    /// The registered importers, in order.
    pub closed spec fn importers(&self) -> Seq<Importer> {
        self.importers@
    }

    /// The registered exporters, in order.
    pub closed spec fn exporters(&self) -> Seq<Exporter> {
        self.exporters@
    }

    /// A registry with the built-in handlers: the Postman and OpenAPI
    /// importers, and the JSON, YAML and Postman exporters.
    pub fn new() -> (r: Self)
        ensures
            r.importers().len() == 2,
            r.importers()[0] is Postman,
            r.importers()[1] is OpenApi,
            r.exporters().len() == 3,
            r.exporters()[0] is Json,
            r.exporters()[1] is Yaml,
            r.exporters()[2] is Postman,
    {
        let mut manager = ImportExportManager { importers: Vec::new(), exporters: Vec::new() };
        manager.register_builtin_handlers();
        manager
    }

    fn register_builtin_handlers(&mut self)
        ensures
            final(self).importers() == old(self).importers() + seq![
                Importer::Postman(postman::PostmanImporter {}),
                Importer::OpenApi(openapi::OpenApiImporter {}),
            ],
            final(self).exporters() == old(self).exporters() + seq![
                Exporter::Json(exporter::JsonExporter),
                Exporter::Yaml(exporter::YamlExporter),
                Exporter::Postman(exporter::PostmanExporter),
            ],
    {
        self.importers.push(Importer::Postman(postman::PostmanImporter::new()));
        self.importers.push(Importer::OpenApi(openapi::OpenApiImporter::new()));
        self.exporters.push(Exporter::Json(exporter::JsonExporter::new()));
        self.exporters.push(Exporter::Yaml(exporter::YamlExporter::new()));
        self.exporters.push(Exporter::Postman(exporter::PostmanExporter::new()));
    }

    /// The formats of all importers, in registration order.
    pub fn get_supported_import_formats(&self) -> (r: Vec<ImportFormat>)
        ensures
            r@ == all_import_formats(self.importers()),
    {
        let mut formats: Vec<ImportFormat> = Vec::new();
        let mut i: usize = 0;
        while i < self.importers.len()
            invariant
                i <= self.importers@.len(),
                formats@ == all_import_formats(self.importers@.take(i as int)),
            decreases self.importers.len() - i,
        {
            let mut more = self.importers[i].supported_formats();
            formats.append(&mut more);
            assert(self.importers@.take(i + 1).drop_last() =~= self.importers@.take(i as int));
            i = i + 1;
        }
        assert(self.importers@.take(self.importers@.len() as int) =~= self.importers@);
        formats
    }

    /// The formats of all exporters, in registration order.
    pub fn get_supported_export_formats(&self) -> (r: Vec<ExportFormat>)
        ensures
            r@ == all_export_formats(self.exporters()),
    {
        let mut formats: Vec<ExportFormat> = Vec::new();
        let mut i: usize = 0;
        while i < self.exporters.len()
            invariant
                i <= self.exporters@.len(),
                formats@ == all_export_formats(self.exporters@.take(i as int)),
            decreases self.exporters.len() - i,
        {
            let mut more = self.exporters[i].supported_formats();
            formats.append(&mut more);
            assert(self.exporters@.take(i + 1).drop_last() =~= self.exporters@.take(i as int));
            i = i + 1;
        }
        assert(self.exporters@.take(self.exporters@.len() as int) =~= self.exporters@);
        formats
    }

    /// The first importer that reads `format`.
    pub fn find_importer(&self, format: &ImportFormat) -> (r: Result<&Importer, TestCaseError>)
        ensures
            match r {
                Ok(imp) => exists|i: int| 0 <= i < self.importers().len() && *imp == self.importers()[i]
                    && importer_formats(self.importers()[i]).contains(*format)
                    && forall|j: int| 0 <= j < i ==> !importer_formats(#[trigger] self.importers()[j]).contains(*format),
                Err(e) => e matches TestCaseError::ImportError(m)
                    && m@ == "No importer found for format: "@ + import_format_name(*format)
                    && forall|j: int| 0 <= j < self.importers().len() ==> !importer_formats(#[trigger] self.importers()[j]).contains(*format),
            },
    {
        let mut i: usize = 0;
        while i < self.importers.len()
            invariant
                i <= self.importers@.len(),
                forall|j: int| 0 <= j < i ==> !importer_formats(#[trigger] self.importers@[j]).contains(*format),
            decreases self.importers.len() - i,
        {
            let fs = self.importers[i].supported_formats();
            let mut k: usize = 0;
            let mut found = false;
            while k < fs.len()
                invariant
                    k <= fs@.len(),
                    found == exists|m: int| 0 <= m < k && fs@[m] == *format,
                decreases fs.len() - k,
            {
                if fs[k] == *format {
                    found = true;
                }
                k = k + 1;
            }
            if found {
                proof {
                    let m = choose|m: int| 0 <= m < k && fs@[m] == *format;
                    assert(importer_formats(self.importers@[i as int])[m] == *format);
                    assert(importer_formats(self.importers@[i as int]).contains(*format));
                    assert(self.importers()[i as int] == self.importers@[i as int]);
                    assert(forall|j: int| 0 <= j < i ==> !importer_formats(#[trigger] self.importers()[j]).contains(*format));
                }
                return Ok(&self.importers[i]);
            }
            i = i + 1;
        }
        Err(TestCaseError::ImportError(concat("No importer found for format: ", import_format_text(*format).as_str())))
    }

    /// The first exporter that writes `format`.
    pub fn find_exporter(&self, format: &ExportFormat) -> (r: Result<&Exporter, TestCaseError>)
        ensures
            match r {
                Ok(exp) => exists|i: int| 0 <= i < self.exporters().len() && *exp == self.exporters()[i]
                    && exporter_formats(self.exporters()[i]).contains(*format)
                    && forall|j: int| 0 <= j < i ==> !exporter_formats(#[trigger] self.exporters()[j]).contains(*format),
                Err(e) => e matches TestCaseError::ExportError(m)
                    && m@ == "No exporter found for format: "@ + export_format_name(*format)
                    && forall|j: int| 0 <= j < self.exporters().len() ==> !exporter_formats(#[trigger] self.exporters()[j]).contains(*format),
            },
    {
        let mut i: usize = 0;
        while i < self.exporters.len()
            invariant
                i <= self.exporters@.len(),
                forall|j: int| 0 <= j < i ==> !exporter_formats(#[trigger] self.exporters@[j]).contains(*format),
            decreases self.exporters.len() - i,
        {
            let fs = self.exporters[i].supported_formats();
            let mut k: usize = 0;
            let mut found = false;
            while k < fs.len()
                invariant
                    k <= fs@.len(),
                    found == exists|m: int| 0 <= m < k && fs@[m] == *format,
                decreases fs.len() - k,
            {
                if fs[k] == *format {
                    found = true;
                }
                k = k + 1;
            }
            if found {
                proof {
                    let m = choose|m: int| 0 <= m < k && fs@[m] == *format;
                    assert(exporter_formats(self.exporters@[i as int])[m] == *format);
                    assert(exporter_formats(self.exporters@[i as int]).contains(*format));
                    assert(self.exporters()[i as int] == self.exporters@[i as int]);
                    assert(forall|j: int| 0 <= j < i ==> !exporter_formats(#[trigger] self.exporters()[j]).contains(*format));
                }
                return Ok(&self.exporters[i]);
            }
            i = i + 1;
        }
        Err(TestCaseError::ExportError(concat("No exporter found for format: ", export_format_text(*format).as_str())))
    }
}

} // verus!
