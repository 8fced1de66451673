//! PDF manipulation: the object graph, merging, and header/footer stamping.

pub mod codec;
pub mod document;
pub mod fontspec;
pub mod headers;
pub mod markup;
pub mod markup_laws;
pub mod merge;
pub mod merge_laws;
pub mod metadata;
pub mod object;
pub mod overlay;
pub mod stamp;
pub mod transform;
pub mod transform_laws;

pub use markup::{
    escape_pdf_string, expand_placeholders, parse_font_style, parse_font_tags,
    parse_multiline_text, FontStyle, TextSegment,
};
pub use document::{PdfDocument, RawDocument};
pub use merge::{merge_documents, merge_inputs, merge_pdfs, renumber_object_references, MergeOptions, MergeSource};
pub use metadata::{count_pages, count_pages_from_catalog, extract_metadata, PdfMetadata};
pub use object::{key, ObjectId, PdfDict, PdfObject, PdfStream, StringFormat};
pub use headers::{
    estimate_text_width, estimate_text_width_with_tags, generate_header_footer_content,
    generate_line_with_font_tags, FontSpec, HeaderFooterOptions, MaskOptions,
};
pub use stamp::{
    add_headers_footers, add_xobject_to_page_resources, create_form_xobject,
    create_liberation_serif_widths, embed_liberation_serif, stamp_document,
    stamp_headers_footers, use_helvetica_font, wrap_content_and_append_xobject,
};
pub use overlay::{
    get_page_content_and_resources, merge_resources, overlay_documents, overlay_watermark,
    wrap_page_content_in_graphics_state,
};
pub use transform::{detect_page_transform, detect_transform, parse_number, TransformMatrix};
pub use fontspec::{parse_hex_color, parse_size_token};
