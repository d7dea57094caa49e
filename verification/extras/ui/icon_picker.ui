<?xml version="1.0" encoding="UTF-8"?>
<interface>
  <requires lib="gtk" version="4.10"/>
  <object class="GtkBox" id="root">
    <property name="orientation">vertical</property>
    <property name="spacing">10</property>
    <property name="margin-start">12</property>
    <property name="margin-end">12</property>
    <property name="margin-top">12</property>
    <property name="margin-bottom">12</property>
    <style><class name="profile-icon-picker-surface"/></style>
    <child><object class="GtkFlowBox" id="flow">
      <property name="selection-mode">none</property>
      <property name="min-children-per-line">5</property>
      <property name="max-children-per-line">5</property>
      <property name="column-spacing">8</property>
      <property name="row-spacing">8</property>
      <style><class name="profile-icon-picker-grid"/></style>
    </object></child>
  </object>
</interface>
