//! What the tray icon looks like and says.
use crate::errors::SearchError;
use crate::index::ScanReport;
use crate::overview::IndexStatus;
use crate::text::{concat, to_decimal};
use vstd::prelude::*;

verus! {

/// The number of pixels on each side of the icon.
pub const ICON_SIZE: u32 = 16;

/// The line about the index in the menu.
pub open spec fn status_wording(status: Result<IndexStatus, SearchError>) -> Seq<char> {
    match status {
        Ok(status) => {
            let counts = "待命："@ + crate::text::decimal(status.indexed_files as nat)
                + " 文件，"@ + crate::text::decimal(status.indexed_directories as nat)
                + " 目录，"@ + crate::text::decimal(status.roots as nat) + " 根目录"@;
            if status.incomplete_roots > 0 {
                counts + "；"@ + crate::text::decimal(status.incomplete_roots as nat)
                    + " 根需重建"@
            } else {
                counts
            }
        },
        Err(_) => "待命：暂时无法读取索引状态"@,
    }
}

/// The line about the index in the menu.
pub fn status_label(status: &Result<IndexStatus, SearchError>) -> (label: String)
    ensures
        label@ == status_wording(*status),
{
    match status {
        Ok(status) => {
            let mut label = concat("待命：", to_decimal(status.indexed_files).as_str());
            label.append(" 文件，");
            label.append(to_decimal(status.indexed_directories).as_str());
            label.append(" 目录，");
            label.append(to_decimal(status.roots).as_str());
            label.append(" 根目录");
            if status.incomplete_roots > 0 {
                label.append("；");
                label.append(to_decimal(status.incomplete_roots).as_str());
                label.append(" 根需重建");
            }
            label
        },
        Err(_) => "待命：暂时无法读取索引状态".to_owned(),
    }
}

/// The line after a volume was indexed from the menu.
pub fn index_finished_label(result: &Result<ScanReport, String>) -> (label: String)
    ensures
        label@ == match *result {
            Ok(report) => "C: 索引完成："@ + crate::text::decimal(report.indexed_files as nat)
                + " 文件，"@ + crate::text::decimal(report.indexed_directories as nat)
                + " 目录"@,
            Err(error) => "C: 索引失败："@ + error@,
        },
{
    match result {
        Ok(report) => {
            let mut label = concat("C: 索引完成：", to_decimal(report.indexed_files).as_str());
            label.append(" 文件，");
            label.append(to_decimal(report.indexed_directories).as_str());
            label.append(" 目录");
            label
        },
        Err(error) => concat("C: 索引失败：", error.as_str()),
    }
}

/// Whether a pixel lies on the edge of the icon.
pub open spec fn on_edge(x: int, y: int) -> bool {
    x == 0 || y == 0 || x == 15 || y == 15
}

/// The colour of a pixel: red, green, blue and how far it covers what lies behind it.
pub open spec fn pixel(x: int, y: int) -> Seq<u8> {
    if on_edge(x, y) {
        seq![17, 110, 158, 255]
    } else {
        seq![12, 155, 214, 255]
    }
}

/// The bytes of the icon, row by row.
pub open spec fn icon_bytes() -> Seq<u8> {
    Seq::new(1024, |i: int| pixel(i / 4 % 16, i / 4 / 16)[i % 4])
}

/// The bytes of the icon.
pub fn status_icon() -> (rgba: Vec<u8>)
    ensures
        rgba@ == icon_bytes(),
{
    let mut rgba: Vec<u8> = Vec::new();
    let mut position: u32 = 0;
    while position < 256
        invariant
            position <= 256,
            rgba@.len() == position * 4,
            forall|i: int| 0 <= i < rgba@.len() ==> #[trigger] rgba@[i] == icon_bytes()[i],
        decreases 256 - position,
    {
        let x: u32 = position % ICON_SIZE;
        let y: u32 = position / ICON_SIZE;
        let edge: bool = x == 0 || y == 0 || x == ICON_SIZE - 1 || y == ICON_SIZE - 1;
        let ghost before = rgba@;
        let red: u8 = if edge {
            17
        } else {
            12
        };
        let green: u8 = if edge {
            110
        } else {
            155
        };
        let blue: u8 = if edge {
            158
        } else {
            214
        };
        rgba.push(red);
        rgba.push(green);
        rgba.push(blue);
        rgba.push(255);
        proof {
            let colour = pixel(x as int, y as int);
            assert(colour =~= seq![red, green, blue, 255]);
            assert forall|i: int| 0 <= i < rgba@.len() implies #[trigger] rgba@[i]
                == icon_bytes()[i] by {
                if i < before.len() {
                    assert(rgba@[i] == before[i]);
                } else {
                    assert(i / 4 == position);
                    assert(icon_bytes()[i] == colour[i % 4]);
                }
            }
        }
        position += 1;
    }
    assert(rgba@ =~= icon_bytes());
    rgba
}

} // verus!
