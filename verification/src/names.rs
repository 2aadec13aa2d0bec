//! The names of markup are different from each other.

use vstd::prelude::*;

verus! {

/// A number by which names are told apart.
#[verifier::opaque]
pub open spec fn code_s(n: Seq<char>) -> int {
    let k = n.len() as int;
    if k < 3 {
        -k
    } else {
        k + 32 * (n[2] as int) + 4096 * (n[k - 1] as int) + 524288 * (n[k / 2] as int) + (if k > 3 {
            67108864 * (n[3] as int)
        } else {
            0
        }) + 8589934592 * (n[0] as int)
    }
}

proof fn lemma_codes_0()
    ensures
        code_s("r:id"@) == 986018893092,
        code_s("w:after"@) == 1029101268007,
        code_s("w:anchor"@) == 1029636566056,
        code_s("w:ascii"@) == 1029980462119,
        code_s("w:author"@) == 1030115241000,
        code_s("w:b"@) == 1022233029699,
        code_s("w:before"@) == 1029034105928,
        code_s("w:body"@) == 1029709995078,
        code_s("w:bookmarkEnd"@) == 1029708860493,
        code_s("w:bookmarkStart"@) == 1029702634575,
        code_s("w:bottom"@) == 1029712567368,
        code_s("w:br"@) == 1029904477252,
        code_s("w:cantSplit"@) == 1028773071979,
        code_s("w:cellDel"@) == 1029037280361,
        code_s("w:cellIns"@) == 1029037309033,
        code_s("w:color"@) == 1029709966439,
        code_s("w:commentRangeEnd"@) == 1029712530545,
        code_s("w:commentRangeStart"@) == 1029694770291,
        code_s("w:commentReference"@) == 1029694708850,
        code_s("w:contextualSpacing"@) == 1029713067123,
{
    reveal(code_s);
    reveal_strlit("r:id");
    reveal_strlit("w:after");
    reveal_strlit("w:anchor");
    reveal_strlit("w:ascii");
    reveal_strlit("w:author");
    reveal_strlit("w:b");
    reveal_strlit("w:before");
    reveal_strlit("w:body");
    reveal_strlit("w:bookmarkEnd");
    reveal_strlit("w:bookmarkStart");
    reveal_strlit("w:bottom");
    reveal_strlit("w:br");
    reveal_strlit("w:cantSplit");
    reveal_strlit("w:cellDel");
    reveal_strlit("w:cellIns");
    reveal_strlit("w:color");
    reveal_strlit("w:commentRangeEnd");
    reveal_strlit("w:commentRangeStart");
    reveal_strlit("w:commentReference");
    reveal_strlit("w:contextualSpacing");
}

proof fn lemma_codes_1()
    ensures
        code_s("w:cs"@) == 1029972114532,
        code_s("w:date"@) == 1028763049094,
        code_s("w:del"@) == 1029033086085,
        code_s("w:delInstrText"@) == 1029040983182,
        code_s("w:delText"@) == 1029037313161,
        code_s("w:dirty"@) == 1029304196231,
        code_s("w:document"@) == 1029713120394,
        code_s("w:end"@) == 1029637557413,
        code_s("w:fill"@) == 1029304143046,
        code_s("w:firstLine"@) == 1029309357259,
        code_s("w:fldChar"@) == 1029502872777,
        code_s("w:fldCharType"@) == 1029504916685,
        code_s("w:fldSimple"@) == 1029493906635,
        code_s("w:framePr"@) == 1029903953097,
        code_s("w:gridCol"@) == 1029908122857,
        code_s("w:gridSpan"@) == 1029905509610,
        code_s("w:hAnsi"@) == 1026598804743,
        code_s("w:hRule"@) == 1027748551943,
        code_s("w:hanging"@) == 1028769873161,
        code_s("w:highlight"@) == 1029303651595,
{
    reveal(code_s);
    reveal_strlit("w:cs");
    reveal_strlit("w:date");
    reveal_strlit("w:del");
    reveal_strlit("w:delInstrText");
    reveal_strlit("w:delText");
    reveal_strlit("w:dirty");
    reveal_strlit("w:document");
    reveal_strlit("w:end");
    reveal_strlit("w:fill");
    reveal_strlit("w:firstLine");
    reveal_strlit("w:fldChar");
    reveal_strlit("w:fldCharType");
    reveal_strlit("w:fldSimple");
    reveal_strlit("w:framePr");
    reveal_strlit("w:gridCol");
    reveal_strlit("w:gridSpan");
    reveal_strlit("w:hAnsi");
    reveal_strlit("w:hRule");
    reveal_strlit("w:hanging");
    reveal_strlit("w:highlight");
}

proof fn lemma_codes_2()
    ensures
        code_s("w:hyperlink"@) == 1030375783691,
        code_s("w:i"@) == 1022233058595,
        code_s("w:id"@) == 1028968566052,
        code_s("w:ilvl"@) == 1029507042598,
        code_s("w:ind"@) == 1029639654693,
        code_s("w:ins"@) == 1029639716133,
        code_s("w:insideH"@) == 1029644782889,
        code_s("w:insideV"@) == 1029644840233,
        code_s("w:instr"@) == 1029642333479,
        code_s("w:instrText"@) == 1029645487403,
        code_s("w:jc"@) == 1028901977412,
        code_s("w:keepNext"@) == 1029039410538,
        code_s("w:lang"@) == 1028763057542,
        code_s("w:left"@) == 1029033643398,
        code_s("w:line"@) == 1029304114566,
        code_s("w:lineRule"@) == 1029302017418,
        code_s("w:moveFrom"@) == 1029704703402,
        code_s("w:moveFromRangeEnd"@) == 1029708860850,
        code_s("w:moveFromRangeStart"@) == 1029694770612,
        code_s("w:moveTo"@) == 1029713624488,
{
    reveal(code_s);
    reveal_strlit("w:hyperlink");
    reveal_strlit("w:i");
    reveal_strlit("w:id");
    reveal_strlit("w:ilvl");
    reveal_strlit("w:ind");
    reveal_strlit("w:ins");
    reveal_strlit("w:insideH");
    reveal_strlit("w:insideV");
    reveal_strlit("w:instr");
    reveal_strlit("w:instrText");
    reveal_strlit("w:jc");
    reveal_strlit("w:keepNext");
    reveal_strlit("w:lang");
    reveal_strlit("w:left");
    reveal_strlit("w:line");
    reveal_strlit("w:lineRule");
    reveal_strlit("w:moveFrom");
    reveal_strlit("w:moveFromRangeEnd");
    reveal_strlit("w:moveFromRangeStart");
    reveal_strlit("w:moveTo");
}

proof fn lemma_codes_3()
    ensures
        code_s("w:moveToRangeEnd"@) == 1029694705072,
        code_s("w:moveToRangeStart"@) == 1029702634930,
        code_s("w:name"@) == 1028763049414,
        code_s("w:numId"@) == 1030115708359,
        code_s("w:numPr"@) == 1030115765703,
        code_s("w:p"@) == 1022233087491,
        code_s("w:pBdr"@) == 1026666475014,
        code_s("w:pPr"@) == 1027630116357,
        code_s("w:pPrChange"@) == 1027606470155,
        code_s("w:pStyle"@) == 1027833486856,
        code_s("w:pageBreakBefore"@) == 1028765146641,
        code_s("w:pos"@) == 1029710495237,
        code_s("w:r"@) == 1022233095747,
        code_s("w:rFonts"@) == 1026958507592,
        code_s("w:rPr"@) == 1027631164997,
        code_s("w:rPrChange"@) == 1027606470219,
        code_s("w:rStyle"@) == 1027833486920,
        code_s("w:right"@) == 1029304176199,
        code_s("w:sectPr"@) == 1029032586856,
        code_s("w:shd"@) == 1029242244709,
{
    reveal(code_s);
    reveal_strlit("w:moveToRangeEnd");
    reveal_strlit("w:moveToRangeStart");
    reveal_strlit("w:name");
    reveal_strlit("w:numId");
    reveal_strlit("w:numPr");
    reveal_strlit("w:p");
    reveal_strlit("w:pBdr");
    reveal_strlit("w:pPr");
    reveal_strlit("w:pPrChange");
    reveal_strlit("w:pStyle");
    reveal_strlit("w:pageBreakBefore");
    reveal_strlit("w:pos");
    reveal_strlit("w:r");
    reveal_strlit("w:rFonts");
    reveal_strlit("w:rPr");
    reveal_strlit("w:rPrChange");
    reveal_strlit("w:rStyle");
    reveal_strlit("w:right");
    reveal_strlit("w:sectPr");
    reveal_strlit("w:shd");
}

proof fn lemma_codes_4()
    ensures
        code_s("w:space"@) == 1029777546855,
        code_s("w:spacing"@) == 1029769690729,
        code_s("w:start"@) == 1030048140903,
        code_s("w:strike"@) == 1030047030888,
        code_s("w:sz"@) == 1030450294372,
        code_s("w:szCs"@) == 1030453935718,
        code_s("w:t"@) == 1022233104003,
        code_s("w:tab"@) == 1028772998789,
        code_s("w:tabs"@) == 1028763106950,
        code_s("w:tbl"@) == 1028840148613,
        code_s("w:tblBorders"@) == 1028837555852,
        code_s("w:tblCellMar"@) == 1028832308876,
        code_s("w:tblGrid"@) == 1028835921545,
        code_s("w:tblLook"@) == 1028835950217,
        code_s("w:tblPr"@) == 1028830736007,
        code_s("w:tblPrChange"@) == 1028839071373,
        code_s("w:tblStyle"@) == 1028822818442,
        code_s("w:tblW"@) == 1028830625414,
        code_s("w:tc"@) == 1028907220612,
        code_s("w:tcBorders"@) == 1028904664715,
{
    reveal(code_s);
    reveal_strlit("w:space");
    reveal_strlit("w:spacing");
    reveal_strlit("w:start");
    reveal_strlit("w:strike");
    reveal_strlit("w:sz");
    reveal_strlit("w:szCs");
    reveal_strlit("w:t");
    reveal_strlit("w:tab");
    reveal_strlit("w:tabs");
    reveal_strlit("w:tbl");
    reveal_strlit("w:tblBorders");
    reveal_strlit("w:tblCellMar");
    reveal_strlit("w:tblGrid");
    reveal_strlit("w:tblLook");
    reveal_strlit("w:tblPr");
    reveal_strlit("w:tblPrChange");
    reveal_strlit("w:tblStyle");
    reveal_strlit("w:tblW");
    reveal_strlit("w:tc");
    reveal_strlit("w:tcBorders");
}

proof fn lemma_codes_5()
    ensures
        code_s("w:tcMar"@) == 1028898369159,
        code_s("w:tcPr"@) == 1028898369158,
        code_s("w:tcPrChange"@) == 1028881538700,
        code_s("w:tcW"@) == 1028907171461,
        code_s("w:top"@) == 1029712580229,
        code_s("w:tr"@) == 1029913915012,
        code_s("w:trHeight"@) == 1029906058890,
        code_s("w:trPr"@) == 1029912866438,
        code_s("w:trPrChange"@) == 1029888171660,
        code_s("w:txbxContent"@) == 1030290886285,
        code_s("w:type"@) == 1030386245254,
        code_s("w:u"@) == 1022233108131,
        code_s("w:vMerge"@) == 1027422969544,
        code_s("w:val"@) == 1028774088389,
        code_s("w:vertAlign"@) == 1029041483467,
        code_s("w:w"@) == 1022233116387,
        code_s("xml:space"@) == 1034745175433,
        code_s("restart"@) == 987098467943,
        code_s("exact"@) == 874278505509,
        code_s("atLeast"@) == 840055081351,
{
    reveal(code_s);
    reveal_strlit("w:tcMar");
    reveal_strlit("w:tcPr");
    reveal_strlit("w:tcPrChange");
    reveal_strlit("w:tcW");
    reveal_strlit("w:top");
    reveal_strlit("w:tr");
    reveal_strlit("w:trHeight");
    reveal_strlit("w:trPr");
    reveal_strlit("w:trPrChange");
    reveal_strlit("w:txbxContent");
    reveal_strlit("w:type");
    reveal_strlit("w:u");
    reveal_strlit("w:vMerge");
    reveal_strlit("w:val");
    reveal_strlit("w:vertAlign");
    reveal_strlit("w:w");
    reveal_strlit("xml:space");
    reveal_strlit("restart");
    reveal_strlit("exact");
    reveal_strlit("atLeast");
}

proof fn lemma_codes_6()
    ensures
        code_s("single"@) == 994809109958,
        code_s("auto"@) == 840734015108,
        code_s("none"@) == 951728889284,
        code_s("false"@) == 883947888005,
        code_s("0"@) == -1,
        code_s("off"@) == 953536638147,
        code_s("page"@) == 968905088228,
        code_s("column"@) == 858317057414,
        code_s("clear"@) == 856966507685,
        code_s("superscript"@) == 994681245195,
        code_s("subscript"@) == 995612380233,
        code_s("continuous"@) == 858246299082,
        code_s("nextColumn"@) == 952736083722,
        code_s("preserve"@) == 969843563688,
        code_s("dxa"@) == 859056774179,
        code_s("true"@) == 1003272167076,
{
    reveal(code_s);
    reveal_strlit("single");
    reveal_strlit("auto");
    reveal_strlit("none");
    reveal_strlit("false");
    reveal_strlit("0");
    reveal_strlit("off");
    reveal_strlit("page");
    reveal_strlit("column");
    reveal_strlit("clear");
    reveal_strlit("superscript");
    reveal_strlit("subscript");
    reveal_strlit("continuous");
    reveal_strlit("nextColumn");
    reveal_strlit("preserve");
    reveal_strlit("dxa");
    reveal_strlit("true");
}

/// The numbers of the names and words that the reader of a document looks at.
pub(crate) proof fn lemma_codes()
    ensures
        code_s("r:id"@) == 986018893092,
        code_s("w:after"@) == 1029101268007,
        code_s("w:anchor"@) == 1029636566056,
        code_s("w:ascii"@) == 1029980462119,
        code_s("w:author"@) == 1030115241000,
        code_s("w:b"@) == 1022233029699,
        code_s("w:before"@) == 1029034105928,
        code_s("w:body"@) == 1029709995078,
        code_s("w:bookmarkEnd"@) == 1029708860493,
        code_s("w:bookmarkStart"@) == 1029702634575,
        code_s("w:bottom"@) == 1029712567368,
        code_s("w:br"@) == 1029904477252,
        code_s("w:cantSplit"@) == 1028773071979,
        code_s("w:cellDel"@) == 1029037280361,
        code_s("w:cellIns"@) == 1029037309033,
        code_s("w:color"@) == 1029709966439,
        code_s("w:commentRangeEnd"@) == 1029712530545,
        code_s("w:commentRangeStart"@) == 1029694770291,
        code_s("w:commentReference"@) == 1029694708850,
        code_s("w:contextualSpacing"@) == 1029713067123,
        code_s("w:cs"@) == 1029972114532,
        code_s("w:date"@) == 1028763049094,
        code_s("w:del"@) == 1029033086085,
        code_s("w:delInstrText"@) == 1029040983182,
        code_s("w:delText"@) == 1029037313161,
        code_s("w:dirty"@) == 1029304196231,
        code_s("w:document"@) == 1029713120394,
        code_s("w:end"@) == 1029637557413,
        code_s("w:fill"@) == 1029304143046,
        code_s("w:firstLine"@) == 1029309357259,
        code_s("w:fldChar"@) == 1029502872777,
        code_s("w:fldCharType"@) == 1029504916685,
        code_s("w:fldSimple"@) == 1029493906635,
        code_s("w:framePr"@) == 1029903953097,
        code_s("w:gridCol"@) == 1029908122857,
        code_s("w:gridSpan"@) == 1029905509610,
        code_s("w:hAnsi"@) == 1026598804743,
        code_s("w:hRule"@) == 1027748551943,
        code_s("w:hanging"@) == 1028769873161,
        code_s("w:highlight"@) == 1029303651595,
        code_s("w:hyperlink"@) == 1030375783691,
        code_s("w:i"@) == 1022233058595,
        code_s("w:id"@) == 1028968566052,
        code_s("w:ilvl"@) == 1029507042598,
        code_s("w:ind"@) == 1029639654693,
        code_s("w:ins"@) == 1029639716133,
        code_s("w:insideH"@) == 1029644782889,
        code_s("w:insideV"@) == 1029644840233,
        code_s("w:instr"@) == 1029642333479,
        code_s("w:instrText"@) == 1029645487403,
        code_s("w:jc"@) == 1028901977412,
        code_s("w:keepNext"@) == 1029039410538,
        code_s("w:lang"@) == 1028763057542,
        code_s("w:left"@) == 1029033643398,
        code_s("w:line"@) == 1029304114566,
        code_s("w:lineRule"@) == 1029302017418,
        code_s("w:moveFrom"@) == 1029704703402,
        code_s("w:moveFromRangeEnd"@) == 1029708860850,
        code_s("w:moveFromRangeStart"@) == 1029694770612,
        code_s("w:moveTo"@) == 1029713624488,
        code_s("w:moveToRangeEnd"@) == 1029694705072,
        code_s("w:moveToRangeStart"@) == 1029702634930,
        code_s("w:name"@) == 1028763049414,
        code_s("w:numId"@) == 1030115708359,
        code_s("w:numPr"@) == 1030115765703,
        code_s("w:p"@) == 1022233087491,
        code_s("w:pBdr"@) == 1026666475014,
        code_s("w:pPr"@) == 1027630116357,
        code_s("w:pPrChange"@) == 1027606470155,
        code_s("w:pStyle"@) == 1027833486856,
        code_s("w:pageBreakBefore"@) == 1028765146641,
        code_s("w:pos"@) == 1029710495237,
        code_s("w:r"@) == 1022233095747,
        code_s("w:rFonts"@) == 1026958507592,
        code_s("w:rPr"@) == 1027631164997,
        code_s("w:rPrChange"@) == 1027606470219,
        code_s("w:rStyle"@) == 1027833486920,
        code_s("w:right"@) == 1029304176199,
        code_s("w:sectPr"@) == 1029032586856,
        code_s("w:shd"@) == 1029242244709,
        code_s("w:space"@) == 1029777546855,
        code_s("w:spacing"@) == 1029769690729,
        code_s("w:start"@) == 1030048140903,
        code_s("w:strike"@) == 1030047030888,
        code_s("w:sz"@) == 1030450294372,
        code_s("w:szCs"@) == 1030453935718,
        code_s("w:t"@) == 1022233104003,
        code_s("w:tab"@) == 1028772998789,
        code_s("w:tabs"@) == 1028763106950,
        code_s("w:tbl"@) == 1028840148613,
        code_s("w:tblBorders"@) == 1028837555852,
        code_s("w:tblCellMar"@) == 1028832308876,
        code_s("w:tblGrid"@) == 1028835921545,
        code_s("w:tblLook"@) == 1028835950217,
        code_s("w:tblPr"@) == 1028830736007,
        code_s("w:tblPrChange"@) == 1028839071373,
        code_s("w:tblStyle"@) == 1028822818442,
        code_s("w:tblW"@) == 1028830625414,
        code_s("w:tc"@) == 1028907220612,
        code_s("w:tcBorders"@) == 1028904664715,
        code_s("w:tcMar"@) == 1028898369159,
        code_s("w:tcPr"@) == 1028898369158,
        code_s("w:tcPrChange"@) == 1028881538700,
        code_s("w:tcW"@) == 1028907171461,
        code_s("w:top"@) == 1029712580229,
        code_s("w:tr"@) == 1029913915012,
        code_s("w:trHeight"@) == 1029906058890,
        code_s("w:trPr"@) == 1029912866438,
        code_s("w:trPrChange"@) == 1029888171660,
        code_s("w:txbxContent"@) == 1030290886285,
        code_s("w:type"@) == 1030386245254,
        code_s("w:u"@) == 1022233108131,
        code_s("w:vMerge"@) == 1027422969544,
        code_s("w:val"@) == 1028774088389,
        code_s("w:vertAlign"@) == 1029041483467,
        code_s("w:w"@) == 1022233116387,
        code_s("xml:space"@) == 1034745175433,
        code_s("restart"@) == 987098467943,
        code_s("exact"@) == 874278505509,
        code_s("atLeast"@) == 840055081351,
        code_s("single"@) == 994809109958,
        code_s("auto"@) == 840734015108,
        code_s("none"@) == 951728889284,
        code_s("false"@) == 883947888005,
        code_s("0"@) == -1,
        code_s("off"@) == 953536638147,
        code_s("page"@) == 968905088228,
        code_s("column"@) == 858317057414,
        code_s("clear"@) == 856966507685,
        code_s("superscript"@) == 994681245195,
        code_s("subscript"@) == 995612380233,
        code_s("continuous"@) == 858246299082,
        code_s("nextColumn"@) == 952736083722,
        code_s("preserve"@) == 969843563688,
        code_s("dxa"@) == 859056774179,
        code_s("true"@) == 1003272167076,
{
    lemma_codes_0();
    lemma_codes_1();
    lemma_codes_2();
    lemma_codes_3();
    lemma_codes_4();
    lemma_codes_5();
    lemma_codes_6();
}

} // verus!
